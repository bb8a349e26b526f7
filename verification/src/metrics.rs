//! Counters of the daemon and their text in the Prometheus exposition format.

use crate::text;
use vstd::prelude::*;

verus! {

/// Counters of what the daemon did. They wrap around at the end of their range.
#[derive(Debug)]
pub struct Metrics {
    /// Gamepad events that were processed.
    pub input_events: u64,
    /// Intents that were broadcast.
    pub intents_emitted: u64,
    /// Switches between shell and game.
    pub transitions: u64,
    /// Gamepads that joined.
    pub pad_joins: u64,
    /// Gamepads that left.
    pub pad_leaves: u64,
    /// Starts of the daemon.
    pub shell_restarts: u64,
    /// Whether the input runtime runs: 1 or 0.
    pub runtime_up: u64,
    /// Times that the input runtime was started again after a panic.
    pub runtime_restarts: u64,
    /// Times that a gamepad was grabbed when it should not be, or the reverse.
    pub grab_invariant_violations: u64,
    /// Deployments that succeeded.
    pub deploy_ok: u64,
    /// Deployments that failed.
    pub deploy_err: u64,
    /// Builds that were asked for.
    pub build_actions: u64,
    /// Restarts of the shell that were asked for.
    pub restart_shell_actions: u64,
    /// Restarts of the daemon that were asked for.
    pub restart_daemon_actions: u64,
    /// Times that more than one shell ran after a restart.
    pub quickshell_multi_instance: u64,
    /// Warnings in the log of the shell.
    pub quickshell_warnings: u64,
}

/// All counters at zero.
pub open spec fn zero() -> Metrics {
    Metrics {
        input_events: 0,
        intents_emitted: 0,
        transitions: 0,
        pad_joins: 0,
        pad_leaves: 0,
        shell_restarts: 0,
        runtime_up: 0,
        runtime_restarts: 0,
        grab_invariant_violations: 0,
        deploy_ok: 0,
        deploy_err: 0,
        build_actions: 0,
        restart_shell_actions: 0,
        restart_daemon_actions: 0,
        quickshell_multi_instance: 0,
        quickshell_warnings: 0,
    }
}

impl Default for Metrics {
    fn default() -> (r: Self)
        ensures
            r == zero(),
    {
        Metrics {
            input_events: 0,
            intents_emitted: 0,
            transitions: 0,
            pad_joins: 0,
            pad_leaves: 0,
            shell_restarts: 0,
            runtime_up: 0,
            runtime_restarts: 0,
            grab_invariant_violations: 0,
            deploy_ok: 0,
            deploy_err: 0,
            build_actions: 0,
            restart_shell_actions: 0,
            restart_daemon_actions: 0,
            quickshell_multi_instance: 0,
            quickshell_warnings: 0,
        }
    }
}

/// `n` and one more.
pub open spec fn bumped(n: u64) -> u64 {
    vstd::wrapping::u64_specs::wrapping_add(n, 1)
}

impl Metrics {
    /// All counters at zero.
    pub fn new() -> (r: Metrics)
        ensures
            r == zero(),
    {
        Metrics::default()
    }

    /// Counts a gamepad event.
    pub fn inc_input_events(&mut self)
        ensures
            *final(self) == (Metrics { input_events: bumped(old(self).input_events), ..*old(self) }),
    {
        self.input_events = self.input_events.wrapping_add(1);
    }

    /// Counts an intent.
    pub fn inc_intents(&mut self)
        ensures
            *final(self) == (Metrics { intents_emitted: bumped(old(self).intents_emitted), ..*old(self) }),
    {
        self.intents_emitted = self.intents_emitted.wrapping_add(1);
    }

    /// Counts a switch between shell and game.
    pub fn inc_transitions(&mut self)
        ensures
            *final(self) == (Metrics { transitions: bumped(old(self).transitions), ..*old(self) }),
    {
        self.transitions = self.transitions.wrapping_add(1);
    }

    /// Counts a gamepad that joined.
    pub fn inc_pad_joins(&mut self)
        ensures
            *final(self) == (Metrics { pad_joins: bumped(old(self).pad_joins), ..*old(self) }),
    {
        self.pad_joins = self.pad_joins.wrapping_add(1);
    }

    /// Counts a gamepad that left.
    pub fn inc_pad_leaves(&mut self)
        ensures
            *final(self) == (Metrics { pad_leaves: bumped(old(self).pad_leaves), ..*old(self) }),
    {
        self.pad_leaves = self.pad_leaves.wrapping_add(1);
    }

    /// Counts a start of the daemon.
    pub fn inc_shell_restarts(&mut self)
        ensures
            *final(self) == (Metrics { shell_restarts: bumped(old(self).shell_restarts), ..*old(self) }),
    {
        self.shell_restarts = self.shell_restarts.wrapping_add(1);
    }

    /// Says whether the input runtime runs.
    pub fn set_runtime_up(&mut self, up: bool)
        ensures
            *final(self) == (Metrics {
                runtime_up: if up {
                    1
                } else {
                    0
                },
                ..*old(self)
            }),
    {
        self.runtime_up = if up {
            1
        } else {
            0
        };
    }

    /// Counts a new start of the input runtime.
    pub fn inc_runtime_restarts(&mut self)
        ensures
            *final(self) == (Metrics { runtime_restarts: bumped(old(self).runtime_restarts), ..*old(self) }),
    {
        self.runtime_restarts = self.runtime_restarts.wrapping_add(1);
    }

    /// Counts a gamepad whose grab was not as it should be.
    pub fn inc_grab_invariant_violations(&mut self)
        ensures
            *final(self) == (Metrics { grab_invariant_violations: bumped(old(self).grab_invariant_violations), ..*old(self) }),
    {
        self.grab_invariant_violations = self.grab_invariant_violations.wrapping_add(1);
    }

    /// Counts a deployment by how it went.
    pub fn inc_deploy(&mut self, ok: bool)
        ensures
            ok ==> *final(self) == (Metrics { deploy_ok: bumped(old(self).deploy_ok), ..*old(self) }),
            !ok ==> *final(self) == (Metrics {
                deploy_err: bumped(old(self).deploy_err),
                ..*old(self)
            }),
    {
        if ok {
            self.deploy_ok = self.deploy_ok.wrapping_add(1);
        } else {
            self.deploy_err = self.deploy_err.wrapping_add(1);
        }
    }

    /// Counts a build.
    pub fn inc_build(&mut self)
        ensures
            *final(self) == (Metrics { build_actions: bumped(old(self).build_actions), ..*old(self) }),
    {
        self.build_actions = self.build_actions.wrapping_add(1);
    }

    /// Counts a restart of the shell.
    pub fn inc_restart_shell(&mut self)
        ensures
            *final(self) == (Metrics { restart_shell_actions: bumped(old(self).restart_shell_actions), ..*old(self) }),
    {
        self.restart_shell_actions = self.restart_shell_actions.wrapping_add(1);
    }

    /// Counts a restart of the daemon.
    pub fn inc_restart_daemon(&mut self)
        ensures
            *final(self) == (Metrics { restart_daemon_actions: bumped(old(self).restart_daemon_actions), ..*old(self) }),
    {
        self.restart_daemon_actions = self.restart_daemon_actions.wrapping_add(1);
    }

    /// Counts a restart that left more than one shell.
    pub fn inc_quickshell_multi_instance(&mut self)
        ensures
            *final(self) == (Metrics { quickshell_multi_instance: bumped(old(self).quickshell_multi_instance), ..*old(self) }),
    {
        self.quickshell_multi_instance = self.quickshell_multi_instance.wrapping_add(1);
    }

    /// Counts `n` warnings in the log of the shell.
    pub fn add_quickshell_warnings(&mut self, n: u64)
        ensures
            *final(self) == (Metrics {
                quickshell_warnings: vstd::wrapping::u64_specs::wrapping_add(old(self).quickshell_warnings, n),
                ..*old(self)
            }),
    {
        self.quickshell_warnings = self.quickshell_warnings.wrapping_add(n);
    }
}

/// The revision that runs.
#[derive(Debug, Clone, PartialEq, Eq)]
pub struct BuildInfo {
    pub sha: String,
    pub branch: String,
    pub version: String,
}

/// A temperature, as it is shown.
#[derive(Debug, Clone, PartialEq, Eq)]
pub struct TempEntry {
    pub label: String,
    /// Degrees; `0` where the sensor gave no finite number.
    pub celsius: String,
}

impl TempEntry {
    /// The degrees are a number.
    pub open spec fn wf(self) -> bool {
        text::is_decimal(self.celsius@)
    }
}

/// The load of the machine. What is floating point stands here as it is shown,
/// with `0` for what is no finite number.
#[derive(Debug, Clone, PartialEq, Eq)]
pub struct SysMetrics {
    pub cpu_pct: String,
    pub mem_used: u64,
    pub mem_total: u64,
    pub mem_pct: u64,
    pub load1: String,
    pub temps: Vec<TempEntry>,
}

impl SysMetrics {
    /// What stands for a number is one.
    pub open spec fn wf(self) -> bool {
        &&& text::is_decimal(self.cpu_pct@)
        &&& text::is_decimal(self.load1@)
        &&& forall|i: int| 0 <= i < self.temps@.len() ==> (#[trigger] self.temps@[i]).wf()
    }
}

// ---------------------------------------------------------------------------
// Text
// ---------------------------------------------------------------------------

/// How a character stands in the value of a label.
pub open spec fn label_char(c: char) -> Seq<char> {
    if c == '\\' {
        seq!['\\', '\\']
    } else if c == '"' {
        seq!['\\', '"']
    } else if c == '\n' {
        seq!['\\', 'n']
    } else {
        seq![c]
    }
}

/// The value of a label: backslashes, quotes and line feeds are escaped.
pub open spec fn label_value(s: Seq<char>) -> Seq<char>
    decreases s.len(),
{
    if s.len() == 0 {
        Seq::empty()
    } else {
        label_value(s.drop_last()) + label_char(s.last())
    }
}

/// The value of a label: backslashes, quotes and line feeds are escaped.
pub fn escape_label_value(s: &str) -> (r: String)
    ensures
        r@ == label_value(s@),
{
    let v = text::chars_of(s);
    let mut out = String::new();
    let mut i: usize = 0;
    assert(v@.take(0) =~= Seq::empty());
    proof {
        reveal_strlit("\\\\");
        reveal_strlit("\\\"");
        reveal_strlit("\\n");
        assert("\\\\"@ =~= seq!['\\', '\\']);
        assert("\\\""@ =~= seq!['\\', '"']);
        assert("\\n"@ =~= seq!['\\', 'n']);
    }
    while i < v.len()
        invariant
            i <= v.len(),
            "\\\\"@ == seq!['\\', '\\'],
            "\\\""@ == seq!['\\', '"'],
            "\\n"@ == seq!['\\', 'n'],
            out@ == label_value(v@.take(i as int)),
        decreases v.len() - i,
    {
        let c = v[i];
        let ghost next = v@.take(i + 1);
        assert(next.drop_last() =~= v@.take(i as int));
        let ghost before = out@;
        if c == '\\' {
            out.push_str("\\\\");
        } else if c == '"' {
            out.push_str("\\\"");
        } else if c == '\n' {
            out.push_str("\\n");
        } else {
            out.push(c);
            assert(out@ =~= before + seq![c]);
        }
        i += 1;
    }
    assert(v@.take(i as int) =~= v@);
    out
}

/// What a reader of the exposition takes the value of a label for.
pub open spec fn label_read(s: Seq<char>) -> Seq<char>
    decreases s.len(),
{
    if s.len() == 0 {
        Seq::empty()
    } else if s[0] == '\\' && s.len() > 1 {
        seq![
            if s[1] == 'n' {
                '\n'
            } else {
                s[1]
            },
        ] + label_read(s.skip(2))
    } else {
        seq![s[0]] + label_read(s.skip(1))
    }
}

/// Where the value of a label ends for a reader: at the first quote that no
/// backslash stands before, or at the end.
pub open spec fn label_end(s: Seq<char>) -> int
    decreases s.len(),
{
    if s.len() == 0 || s[0] == '"' {
        0
    } else if s[0] == '\\' && s.len() > 1 {
        2 + label_end(s.skip(2))
    } else {
        1 + label_end(s.skip(1))
    }
}

proof fn lemma_label_front(s: Seq<char>)
    requires
        s.len() > 0,
    ensures
        label_value(s) == label_char(s[0]) + label_value(s.skip(1)),
    decreases s.len(),
{
    if s.len() == 1 {
        assert(s.drop_last() =~= Seq::empty());
        assert(s.skip(1) =~= Seq::empty());
        assert(label_value(s) =~= label_char(s[0]) + label_value(s.skip(1)));
    } else {
        lemma_label_front(s.drop_last());
        assert(s.drop_last().skip(1) =~= s.skip(1).drop_last());
        assert(label_value(s) =~= label_char(s[0]) + label_value(s.skip(1)));
    }
}

/// Whatever the value of a label, a reader takes it for what it is, and it leaves
/// neither its quotes nor its line.
pub proof fn law_labels_read_back(s: Seq<char>)
    ensures
        label_read(label_value(s)) == s,
        label_end(label_value(s)) == label_value(s).len(),
        forall|i: int| 0 <= i < label_value(s).len() ==> #[trigger] label_value(s)[i] != '\n',
    decreases s.len(),
{
    let all = label_value(s);
    if s.len() > 0 {
        let rest = label_value(s.skip(1));
        lemma_label_front(s);
        law_labels_read_back(s.skip(1));
        let head = label_char(s[0]);
        assert(all.skip(head.len() as int) =~= rest);
        assert(all[0] == head[0]);
        if head.len() == 2 {
            assert(all[1] == head[1]);
        }
        assert(label_read(all) =~= seq![s[0]] + label_read(rest));
        assert(seq![s[0]] + s.skip(1) =~= s);
        assert forall|i: int| 0 <= i < all.len() implies #[trigger] all[i] != '\n' by {
            if i < head.len() {
                assert(all[i] == head[i]);
            } else {
                assert(all[i] == rest[i - head.len()]);
            }
        }
    }
}

/// What a metric says of itself: what it is, and of which kind.
pub open spec fn header_text(name: Seq<char>, help: Seq<char>, kind: Seq<char>) -> Seq<char> {
    "# HELP "@ + name + " "@ + help + "\n# TYPE "@ + name + " "@ + kind + "\n"@
}

/// One label of a value.
pub open spec fn label_text(label: (Seq<char>, Seq<char>)) -> Seq<char> {
    label.0 + "=\""@ + label_value(label.1) + "\""@
}

/// The labels of a value, where it has any.
pub open spec fn labels_text(labels: Seq<(Seq<char>, Seq<char>)>) -> Seq<char> {
    if labels.len() == 0 {
        Seq::empty()
    } else {
        "{"@ + text::joined(Seq::new(labels.len(), |i: int| label_text(labels[i])), ","@) + "}"@
    }
}

/// A value of a metric: its name, its labels, the value.
pub open spec fn sample_text(
    name: Seq<char>,
    labels: Seq<(Seq<char>, Seq<char>)>,
    value: Seq<char>,
) -> Seq<char> {
    name + labels_text(labels) + " "@ + value
}

/// A metric with its description and one value.
pub open spec fn metric_text(name: Seq<char>, help: Seq<char>, kind: Seq<char>, value: Seq<char>) -> Seq<
    char,
> {
    header_text(name, help, kind) + sample_text(name, Seq::empty(), value) + "\n"@
}

fn push_header(out: &mut String, name: &str, help: &str, kind: &str)
    ensures
        final(out)@ == old(out)@ + header_text(name@, help@, kind@),
{
    let mut t = "# HELP ".to_owned();
    t.push_str(name);
    t.push_str(" ");
    t.push_str(help);
    t.push_str("\n# TYPE ");
    t.push_str(name);
    t.push_str(" ");
    t.push_str(kind);
    t.push_str("\n");
    out.push_str(t.as_str());
}

fn push_sample(out: &mut String, name: &str, labels: &str, value: &str)
    ensures
        final(out)@ == old(out)@ + (name@ + labels@ + " "@ + value@) + "\n"@,
{
    let mut t = name.to_owned();
    t.push_str(labels);
    t.push_str(" ");
    t.push_str(value);
    out.push_str(t.as_str());
    out.push_str("\n");
}

fn push_metric(out: &mut String, name: &str, help: &str, kind: &str, value: &str)
    ensures
        final(out)@ == old(out)@ + metric_text(name@, help@, kind@, value@),
{
    let ghost before = out@;
    proof {
        reveal_strlit("");
    }
    assert(""@ =~= labels_text(Seq::empty()));
    push_header(out, name, help, kind);
    push_sample(out, name, "", value);
    assert(out@ =~= before + metric_text(name@, help@, kind@, value@));
}

/// The label `key` with its value.
fn label(key: &str, value: &str) -> (r: String)
    ensures
        r@ == label_text((key@, value@)),
{
    let mut t = key.to_owned();
    t.push_str("=\"");
    t.push_str(escape_label_value(value).as_str());
    t.push_str("\"");
    t
}

/// One label between its brackets.
fn only_label(key: &str, value: &str) -> (r: String)
    ensures
        r@ == labels_text(seq![(key@, value@)]),
{
    let mut t = "{".to_owned();
    t.push_str(label(key, value).as_str());
    t.push_str("}");
    proof {
        let labels = seq![(key@, value@)];
        let parts = Seq::new(labels.len(), |i: int| label_text(labels[i]));
        assert(parts.len() == 1 && parts[0] == label_text((key@, value@)));
    }
    t
}

/// A counter with its description.
pub open spec fn counter_text(name: Seq<char>, help: Seq<char>, value: u64) -> Seq<char> {
    metric_text(name, help, "counter"@, text::dec(value as nat))
}

fn counter(out: &mut String, name: &str, help: &str, value: u64)
    ensures
        final(out)@ == old(out)@ + counter_text(name@, help@, value),
{
    push_metric(out, name, help, "counter", text::decimal(value).as_str());
}

fn gauge(out: &mut String, name: &str, help: &str, value: &str)
    ensures
        final(out)@ == old(out)@ + metric_text(name@, help@, "gauge"@, value@),
{
    push_metric(out, name, help, "gauge", value);
}

/// The labels of the revision.
pub open spec fn build_labels(b: BuildInfo) -> Seq<(Seq<char>, Seq<char>)> {
    seq![("sha"@, b.sha@), ("branch"@, b.branch@), ("version"@, b.version@)]
}

/// The revision that runs: a metric that is always 1 and says it in its labels.
pub open spec fn build_text(b: BuildInfo) -> Seq<char> {
    header_text(
        "tv_shell_build_info"@,
        "Currently deployed tv-shell revision (value is always 1; identity is in the labels)."@,
        "gauge"@,
    ) + sample_text("tv_shell_build_info"@, build_labels(b), "1"@) + "\n"@
}

fn build_block(b: &BuildInfo) -> (r: String)
    ensures
        r@ == build_text(*b),
{
    let mut labels = "{".to_owned();
    labels.push_str(label("sha", b.sha.as_str()).as_str());
    labels.push_str(",");
    labels.push_str(label("branch", b.branch.as_str()).as_str());
    labels.push_str(",");
    labels.push_str(label("version", b.version.as_str()).as_str());
    labels.push_str("}");
    proof {
        let l = build_labels(*b);
        let parts = Seq::new(l.len(), |i: int| label_text(l[i]));
        assert(parts =~= seq![label_text(l[0]), label_text(l[1]), label_text(l[2])]);
        reveal_with_fuel(text::joined, 3);
        assert(parts.drop_last() =~= seq![label_text(l[0]), label_text(l[1])]);
        assert(parts.drop_last().drop_last() =~= seq![label_text(l[0])]);
        assert(labels@ =~= labels_text(l));
    }
    let mut out = String::new();
    push_header(
        &mut out,
        "tv_shell_build_info",
        "Currently deployed tv-shell revision (value is always 1; identity is in the labels).",
        "gauge",
    );
    push_sample(&mut out, "tv_shell_build_info", labels.as_str(), "1");
    assert(out@ =~= build_text(*b));
    out
}

/// Deployments by how they went: one description, two values.
pub open spec fn deploy_text(c: Metrics) -> Seq<char> {
    header_text(
        "tv_shell_deploy_total"@,
        "/dev/deploy attempts via the HTTP bridge, by outcome."@,
        "counter"@,
    ) + sample_text(
        "tv_shell_deploy_total"@,
        seq![("outcome"@, "ok"@)],
        text::dec(c.deploy_ok as nat),
    ) + "\n"@ + sample_text(
        "tv_shell_deploy_total"@,
        seq![("outcome"@, "error"@)],
        text::dec(c.deploy_err as nat),
    ) + "\n"@
}

fn deploy_block(c: &Metrics) -> (r: String)
    ensures
        r@ == deploy_text(*c),
{
    let mut out = String::new();
    push_header(
        &mut out,
        "tv_shell_deploy_total",
        "/dev/deploy attempts via the HTTP bridge, by outcome.",
        "counter",
    );
    push_sample(
        &mut out,
        "tv_shell_deploy_total",
        only_label("outcome", "ok").as_str(),
        text::decimal(c.deploy_ok).as_str(),
    );
    push_sample(
        &mut out,
        "tv_shell_deploy_total",
        only_label("outcome", "error").as_str(),
        text::decimal(c.deploy_err).as_str(),
    );
    assert(out@ =~= deploy_text(*c));
    out
}

/// The reading of a temperature sensor.
pub open spec fn temp_text(t: TempEntry) -> Seq<char> {
    sample_text("tv_shell_temperature_celsius"@, seq![("sensor"@, t.label@)], t.celsius@) + "\n"@
}

/// The readings of the temperature sensors.
pub open spec fn temps_text(temps: Seq<TempEntry>) -> Seq<char>
    decreases temps.len(),
{
    if temps.len() == 0 {
        Seq::empty()
    } else {
        temps_text(temps.drop_last()) + temp_text(temps.last())
    }
}

fn temps_block(temps: &Vec<TempEntry>) -> (r: String)
    ensures
        r@ == temps_text(temps@),
{
    let mut out = String::new();
    let mut i: usize = 0;
    assert(temps@.take(0) =~= Seq::empty());
    while i < temps.len()
        invariant
            i <= temps.len(),
            out@ == temps_text(temps@.take(i as int)),
        decreases temps.len() - i,
    {
        let ghost next = temps@.take(i + 1);
        let ghost before = out@;
        assert(next.drop_last() =~= temps@.take(i as int));
        push_sample(
            &mut out,
            "tv_shell_temperature_celsius",
            only_label("sensor", temps[i].label.as_str()).as_str(),
            temps[i].celsius.as_str(),
        );
        assert(out@ =~= before + temp_text(temps@[i as int]));
        i += 1;
    }
    assert(temps@.take(i as int) =~= temps@);
    out
}

/// What is read from the gamepads and what follows.
pub open spec fn input_text(c: Metrics) -> Seq<char> {
    counter_text(
        "tv_shell_input_events_total"@,
        "Raw gamepad input events read and processed by the input runtime."@,
        c.input_events,
    ) + counter_text(
        "tv_shell_intents_emitted_total"@,
        "Shell intents broadcast on the event bus (intent:<name>)."@,
        c.intents_emitted,
    ) + counter_text(
        "tv_shell_transitions_total"@,
        "Shell<->game presenter transitions (grab/release/handoff)."@,
        c.transitions,
    ) + counter_text(
        "tv_shell_pad_joins_total"@,
        "Gamepads that joined the fleet (hot-join or initial enumeration)."@,
        c.pad_joins,
    ) + counter_text(
        "tv_shell_pad_leaves_total"@,
        "Gamepads that left the fleet (disconnect)."@,
        c.pad_leaves,
    )
}

fn input_block(c: &Metrics) -> (r: String)
    ensures
        r@ == input_text(*c),
{
    let mut out = String::new();
    counter(
        &mut out,
        "tv_shell_input_events_total",
        "Raw gamepad input events read and processed by the input runtime.",
        c.input_events,
    );
    assert(out@ =~= counter_text(
        "tv_shell_input_events_total"@,
        "Raw gamepad input events read and processed by the input runtime."@,
        c.input_events,
    ));
    counter(
        &mut out,
        "tv_shell_intents_emitted_total",
        "Shell intents broadcast on the event bus (intent:<name>).",
        c.intents_emitted,
    );
    counter(
        &mut out,
        "tv_shell_transitions_total",
        "Shell<->game presenter transitions (grab/release/handoff).",
        c.transitions,
    );
    counter(
        &mut out,
        "tv_shell_pad_joins_total",
        "Gamepads that joined the fleet (hot-join or initial enumeration).",
        c.pad_joins,
    );
    counter(
        &mut out,
        "tv_shell_pad_leaves_total",
        "Gamepads that left the fleet (disconnect).",
        c.pad_leaves,
    );
    out
}

/// How the daemon and its input runtime fare.
pub open spec fn runtime_text(c: Metrics) -> Seq<char> {
    counter_text(
        "tv_shell_shell_restarts_total"@,
        "tv-shell-input daemon starts observed this boot session."@,
        c.shell_restarts,
    ) + counter_text(
        "tv_shell_input_runtime_restarts_total"@,
        "In-process input-runtime respawns after a panic (distinct from daemon process starts in tv_shell_shell_restarts_total)."@,
        c.runtime_restarts,
    ) + counter_text(
        "tv_shell_grab_invariant_violations_total"@,
        "Grab-state drift detected: a pad's physical EVIOCGRAB disagreed with the presenter policy after a transition (should stay 0)."@,
        c.grab_invariant_violations,
    ) + metric_text(
        "tv_shell_input_runtime_up"@,
        "Input runtime liveness (1 = supervised event loop running, 0 = dead/panic-exhausted)."@,
        "gauge"@,
        text::dec(c.runtime_up as nat),
    )
}

fn runtime_block(c: &Metrics) -> (r: String)
    ensures
        r@ == runtime_text(*c),
{
    let mut out = String::new();
    counter(
        &mut out,
        "tv_shell_shell_restarts_total",
        "tv-shell-input daemon starts observed this boot session.",
        c.shell_restarts,
    );
    assert(out@ =~= counter_text(
        "tv_shell_shell_restarts_total"@,
        "tv-shell-input daemon starts observed this boot session."@,
        c.shell_restarts,
    ));
    counter(
        &mut out,
        "tv_shell_input_runtime_restarts_total",
        "In-process input-runtime respawns after a panic (distinct from daemon process starts in tv_shell_shell_restarts_total).",
        c.runtime_restarts,
    );
    counter(
        &mut out,
        "tv_shell_grab_invariant_violations_total",
        "Grab-state drift detected: a pad's physical EVIOCGRAB disagreed with the presenter policy after a transition (should stay 0).",
        c.grab_invariant_violations,
    );
    gauge(
        &mut out,
        "tv_shell_input_runtime_up",
        "Input runtime liveness (1 = supervised event loop running, 0 = dead/panic-exhausted).",
        text::decimal(c.runtime_up).as_str(),
    );
    out
}

/// What was asked for over HTTP besides deployments.
pub open spec fn action_text(c: Metrics) -> Seq<char> {
    counter_text(
        "tv_shell_build_total"@,
        "/dev/build attempts via the HTTP bridge."@,
        c.build_actions,
    ) + counter_text(
        "tv_shell_restart_shell_total"@,
        "/dev/restart-shell attempts via the HTTP bridge."@,
        c.restart_shell_actions,
    ) + counter_text(
        "tv_shell_restart_daemon_total"@,
        "/dev/restart-daemon (re-exec) requests via the HTTP bridge."@,
        c.restart_daemon_actions,
    )
}

fn action_block(c: &Metrics) -> (r: String)
    ensures
        r@ == action_text(*c),
{
    let mut out = String::new();
    counter(
        &mut out,
        "tv_shell_build_total",
        "/dev/build attempts via the HTTP bridge.",
        c.build_actions,
    );
    assert(out@ =~= counter_text(
        "tv_shell_build_total"@,
        "/dev/build attempts via the HTTP bridge."@,
        c.build_actions,
    ));
    counter(
        &mut out,
        "tv_shell_restart_shell_total",
        "/dev/restart-shell attempts via the HTTP bridge.",
        c.restart_shell_actions,
    );
    counter(
        &mut out,
        "tv_shell_restart_daemon_total",
        "/dev/restart-daemon (re-exec) requests via the HTTP bridge.",
        c.restart_daemon_actions,
    );
    out
}

/// What is seen of the shell.
pub open spec fn shell_text(c: Metrics) -> Seq<char> {
    counter_text(
        "tv_shell_quickshell_multi_instance_total"@,
        "Times a shell restart (HTTP /dev/restart-shell or MCP restart_shell) detected >1 quickshell process after a restart settle (#254; should stay 0)."@,
        c.quickshell_multi_instance,
    ) + counter_text(
        "tv_shell_quickshell_warnings_total"@,
        "WARN/ERROR lines written by the Quickshell QML process to /tmp/qs-log.txt, sampled periodically by the daemon (#441). A healthy shell start emits a handful, not hundreds. The log is truncated on every shell start and the scanner treats a shrink or an inode change as a new file, so the counter stays monotonic across shell restarts; on daemon start it seeds from the current file WITHOUT counting its history, so a daemon restart does not replay a whole session. A missing log counts as an empty one, so on a cold boot the seed lands at zero before the shell starts and the startup burst IS counted. Warnings written and truncated away inside one scan interval are not counted."@,
        c.quickshell_warnings,
    )
}

fn shell_block(c: &Metrics) -> (r: String)
    ensures
        r@ == shell_text(*c),
{
    let mut out = String::new();
    counter(
        &mut out,
        "tv_shell_quickshell_multi_instance_total",
        "Times a shell restart (HTTP /dev/restart-shell or MCP restart_shell) detected >1 quickshell process after a restart settle (#254; should stay 0).",
        c.quickshell_multi_instance,
    );
    assert(out@ =~= counter_text(
        "tv_shell_quickshell_multi_instance_total"@,
        "Times a shell restart (HTTP /dev/restart-shell or MCP restart_shell) detected >1 quickshell process after a restart settle (#254; should stay 0)."@,
        c.quickshell_multi_instance,
    ));
    counter(
        &mut out,
        "tv_shell_quickshell_warnings_total",
        "WARN/ERROR lines written by the Quickshell QML process to /tmp/qs-log.txt, sampled periodically by the daemon (#441). A healthy shell start emits a handful, not hundreds. The log is truncated on every shell start and the scanner treats a shrink or an inode change as a new file, so the counter stays monotonic across shell restarts; on daemon start it seeds from the current file WITHOUT counting its history, so a daemon restart does not replay a whole session. A missing log counts as an empty one, so on a cold boot the seed lands at zero before the shell starts and the startup burst IS counted. Warnings written and truncated away inside one scan interval are not counted.",
        c.quickshell_warnings,
    );
    out
}

/// The counters, all of them, whatever their values.
pub open spec fn counters_text(c: Metrics) -> Seq<char> {
    input_text(c) + runtime_text(c) + deploy_text(c) + action_text(c) + shell_text(c)
}

fn counters_block(c: &Metrics) -> (r: String)
    ensures
        r@ == counters_text(*c),
{
    let mut out = input_block(c);
    out.push_str(runtime_block(c).as_str());
    out.push_str(deploy_block(c).as_str());
    out.push_str(action_block(c).as_str());
    out.push_str(shell_block(c).as_str());
    out
}

/// The load of the machine.
pub open spec fn sys_text(m: SysMetrics) -> Seq<char> {
    let head = metric_text(
        "tv_shell_cpu_percent"@,
        "Aggregate CPU utilisation 0..=100 (convenience; prefer node_exporter)."@,
        "gauge"@,
        m.cpu_pct@,
    ) + metric_text(
        "tv_shell_mem_used_bytes"@,
        "Used memory in bytes (convenience; prefer node_exporter)."@,
        "gauge"@,
        text::dec(m.mem_used as nat),
    ) + metric_text(
        "tv_shell_mem_total_bytes"@,
        "Total memory in bytes (convenience; prefer node_exporter)."@,
        "gauge"@,
        text::dec(m.mem_total as nat),
    ) + metric_text(
        "tv_shell_load1"@,
        "1-minute load average (convenience; prefer node_exporter)."@,
        "gauge"@,
        m.load1@,
    );
    if m.temps@.len() == 0 {
        head
    } else {
        head + header_text(
            "tv_shell_temperature_celsius"@,
            "Hardware temperature sensor reading in degrees Celsius (convenience; prefer node_exporter)."@,
            "gauge"@,
        ) + temps_text(m.temps@)
    }
}

fn sys_block(m: &SysMetrics) -> (r: String)
    ensures
        r@ == sys_text(*m),
{
    let mut out = String::new();
    gauge(
        &mut out,
        "tv_shell_cpu_percent",
        "Aggregate CPU utilisation 0..=100 (convenience; prefer node_exporter).",
        m.cpu_pct.as_str(),
    );
    assert(out@ =~= metric_text(
        "tv_shell_cpu_percent"@,
        "Aggregate CPU utilisation 0..=100 (convenience; prefer node_exporter)."@,
        "gauge"@,
        m.cpu_pct@,
    ));
    gauge(
        &mut out,
        "tv_shell_mem_used_bytes",
        "Used memory in bytes (convenience; prefer node_exporter).",
        text::decimal(m.mem_used).as_str(),
    );
    gauge(
        &mut out,
        "tv_shell_mem_total_bytes",
        "Total memory in bytes (convenience; prefer node_exporter).",
        text::decimal(m.mem_total).as_str(),
    );
    gauge(
        &mut out,
        "tv_shell_load1",
        "1-minute load average (convenience; prefer node_exporter).",
        m.load1.as_str(),
    );
    if m.temps.len() > 0 {
        push_header(
            &mut out,
            "tv_shell_temperature_celsius",
            "Hardware temperature sensor reading in degrees Celsius (convenience; prefer node_exporter).",
            "gauge",
        );
        out.push_str(temps_block(&m.temps).as_str());
    }
    out
}

/// The exposition of the daemon: the revision and the load where they are given,
/// the counters always.
pub open spec fn exposition(
    counters: Metrics,
    sys: Option<SysMetrics>,
    build: Option<BuildInfo>,
) -> Seq<char> {
    (match build {
        Some(b) => build_text(b),
        None => Seq::empty(),
    }) + counters_text(counters) + (match sys {
        Some(m) => sys_text(m),
        None => Seq::empty(),
    })
}

/// What an optional reference refers to.
pub open spec fn deref<T>(o: Option<&T>) -> Option<T> {
    match o {
        Some(t) => Some(*t),
        None => None,
    }
}

/// Renders the exposition of the daemon.
pub fn render(counters: &Metrics, sys: Option<&SysMetrics>, build: Option<&BuildInfo>) -> (r:
    String)
    ensures
        r@ == exposition(*counters, deref(sys), deref(build)),
{
    let mut out = match build {
        Some(b) => build_block(b),
        None => String::new(),
    };
    out.push_str(counters_block(counters).as_str());
    match sys {
        Some(m) => {
            out.push_str(sys_block(m).as_str());
        },
        None => {},
    }
    assert(out@ =~= exposition(*counters, deref(sys), deref(build)));
    out
}

/// Renders the exposition with the load of the machine, as it is written to
/// disk and served.
pub fn render_blocking(counters: &Metrics, sys: &SysMetrics, build: Option<&BuildInfo>) -> (r:
    String)
    ensures
        r@ == exposition(*counters, Some(*sys), deref(build)),
{
    render(counters, Some(sys), build)
}

// ---------------------------------------------------------------------------
// Lines
// ---------------------------------------------------------------------------

/// Whether a text can name a metric or a label.
pub open spec fn is_name(s: Seq<char>) -> bool {
    &&& s.len() > 0
    &&& !('0' <= s[0] <= '9')
    &&& forall|i: int|
        0 <= i < s.len() ==> ('a' <= #[trigger] s[i] <= 'z' || '0' <= s[i] <= '9' || s[i] == '_')
}

/// Whether a line describes a metric.
pub open spec fn is_comment(line: Seq<char>) -> bool {
    line.len() > 7 && (line.take(7) == "# HELP "@ || line.take(7) == "# TYPE "@)
}

/// Whether a line is one value of a metric.
pub open spec fn is_sample(line: Seq<char>) -> bool {
    exists|name: Seq<char>, labels: Seq<(Seq<char>, Seq<char>)>, value: Seq<char>|
        line == #[trigger] sample_text(name, labels, value) && is_name(name) && text::is_decimal(
            value,
        ) && forall|i: int| 0 <= i < labels.len() ==> is_name((#[trigger] labels[i]).0)
}

/// Whether a text ends in a line feed.
pub open spec fn ends_line(s: Seq<char>) -> bool {
    s.len() > 0 && s.last() == '\n'
}

/// Whether a text is made of whole lines, each a description or a value.
#[verifier::opaque]
spec fn orderly(s: Seq<char>) -> bool {
    &&& s.len() > 0 ==> s.last() == '\n'
    &&& forall|i: int|
        0 <= i < text::lines_of(s).len() ==> is_comment(#[trigger] text::lines_of(s)[i])
            || is_sample(text::lines_of(s)[i])
}

proof fn lemma_orderly_concat(a: Seq<char>, b: Seq<char>)
    requires
        orderly(a),
        orderly(b),
    ensures
        orderly(a + b),
{
    reveal(orderly);
    text::lemma_lines_concat(a, b);
    let s = a + b;
    if b.len() == 0 {
        assert(s =~= a);
    } else {
        assert(s.last() == b.last());
    }
    assert forall|i: int| 0 <= i < text::lines_of(s).len() implies is_comment(
        #[trigger] text::lines_of(s)[i],
    ) || is_sample(text::lines_of(s)[i]) by {
        if i < text::lines_of(a).len() {
            assert(text::lines_of(s)[i] == text::lines_of(a)[i]);
        } else {
            assert(text::lines_of(s)[i] == text::lines_of(b)[i - text::lines_of(a).len()]);
        }
    }
}

proof fn lemma_orderly_line(line: Seq<char>)
    requires
        !line.contains('\n'),
        line.len() > 0,
        line.last() != '\r',
        is_comment(line) || is_sample(line),
    ensures
        orderly(line + "\n"@),
{
    reveal(orderly);
    reveal_strlit("\n");
    assert(line + "\n"@ =~= line.push('\n'));
    text::lemma_lines_one(line);
}

/// Whether a text stands in one line.
spec fn one_line(s: Seq<char>) -> bool {
    s.len() > 0 && forall|i: int| 0 <= i < s.len() ==> #[trigger] s[i] != '\n' && s[i] != '\r'
}

proof fn lemma_one_line(a: Seq<char>, b: Seq<char>)
    requires
        !a.contains('\n'),
        forall|i: int| 0 <= i < b.len() ==> #[trigger] b[i] != '\n',
    ensures
        !(a + b).contains('\n'),
{
    assert forall|i: int| 0 <= i < (a + b).len() implies (a + b)[i] != '\n' by {
        if i < a.len() {
            assert(a.contains(a[i]));
        }
    }
}

/// A header is two lines that describe a metric.
proof fn lemma_orderly_header(name: Seq<char>, help: Seq<char>, kind: Seq<char>)
    requires
        is_name(name),
        one_line(help),
        one_line(kind),
    ensures
        orderly(header_text(name, help, kind)),
        text::lines_of(header_text(name, help, kind)) == seq![
            "# HELP "@ + name + " "@ + help,
            "# TYPE "@ + name + " "@ + kind,
        ],
{
    reveal_strlit("# HELP ");
    reveal_strlit("# TYPE ");
    reveal_strlit("\n# TYPE ");
    reveal_strlit(" ");
    reveal_strlit("\n");
    let first = "# HELP "@ + name + " "@ + help;
    let second = "# TYPE "@ + name + " "@ + kind;
    assert("\n# TYPE "@ =~= "\n"@ + "# TYPE "@);
    assert(header_text(name, help, kind) =~= (first + "\n"@) + (second + "\n"@));
    lemma_one_line("# HELP "@, name);
    lemma_one_line("# HELP "@ + name, " "@);
    lemma_one_line("# HELP "@ + name + " "@, help);
    lemma_one_line("# TYPE "@, name);
    lemma_one_line("# TYPE "@ + name, " "@);
    lemma_one_line("# TYPE "@ + name + " "@, kind);
    assert(first.take(7) =~= "# HELP "@);
    assert(second.take(7) =~= "# TYPE "@);
    assert(first.last() == help.last() && second.last() == kind.last());
    lemma_orderly_line(first);
    lemma_orderly_line(second);
    lemma_orderly_concat(first + "\n"@, second + "\n"@);
    assert(first + "\n"@ =~= first.push('\n'));
    assert(second + "\n"@ =~= second.push('\n'));
    text::lemma_lines_one(first);
    text::lemma_lines_one(second);
    text::lemma_lines_concat(first + "\n"@, second + "\n"@);
    assert(text::lines_of(header_text(name, help, kind)) =~= seq![first, second]);
}

proof fn lemma_label_one_line(label: (Seq<char>, Seq<char>))
    requires
        is_name(label.0),
    ensures
        !label_text(label).contains('\n'),
{
    reveal_strlit("=\"");
    reveal_strlit("\"");
    law_labels_read_back(label.1);
    assert(!label.0.contains('\n'));
    lemma_one_line(label.0, "=\""@);
    lemma_one_line(label.0 + "=\""@, label_value(label.1));
    lemma_one_line(label.0 + "=\""@ + label_value(label.1), "\""@);
}

/// A value is one line, whatever its labels say.
proof fn lemma_orderly_sample(
    name: Seq<char>,
    labels: Seq<(Seq<char>, Seq<char>)>,
    value: Seq<char>,
)
    requires
        is_name(name),
        text::is_decimal(value),
        forall|i: int| 0 <= i < labels.len() ==> is_name((#[trigger] labels[i]).0),
    ensures
        orderly(sample_text(name, labels, value) + "\n"@),
        text::lines_of(sample_text(name, labels, value) + "\n"@) == seq![
            sample_text(name, labels, value),
        ],
{
    reveal_strlit("{");
    reveal_strlit("}");
    reveal_strlit(" ");
    reveal_strlit("\n");
    let line = sample_text(name, labels, value);
    let parts = Seq::new(labels.len(), |i: int| label_text(labels[i]));
    assert forall|i: int| 0 <= i < parts.len() implies !(#[trigger] parts[i]).contains('\n') by {
        lemma_label_one_line(labels[i]);
    }
    text::lemma_joined_without(parts, '\n');
    text::lemma_decimal(value);
    let inner = text::joined(parts, ","@);
    let set = labels_text(labels);
    assert forall|i: int| 0 <= i < set.len() implies #[trigger] set[i] != '\n' by {
        if 0 < i < set.len() - 1 {
            assert(set[i] == inner[i - 1]);
            assert(inner.contains(inner[i - 1]));
        }
    }
    assert(!name.contains('\n'));
    lemma_one_line(name, set);
    lemma_one_line(name + set, " "@);
    lemma_one_line(name + set + " "@, value);
    assert(line.last() == value.last());
    assert(is_sample(line));
    lemma_orderly_line(line);
    assert(line + "\n"@ =~= line.push('\n'));
    text::lemma_lines_one(line);
}

proof fn lemma_orderly_metric(name: Seq<char>, help: Seq<char>, kind: Seq<char>, value: Seq<char>)
    requires
        is_name(name),
        one_line(help),
        one_line(kind),
        text::is_decimal(value),
    ensures
        orderly(metric_text(name, help, kind, value)),
{
    lemma_orderly_header(name, help, kind);
    lemma_orderly_sample(name, Seq::empty(), value);
    let sample = sample_text(name, Seq::empty(), value);
    lemma_orderly_concat(header_text(name, help, kind), sample + "\n"@);
    assert(metric_text(name, help, kind, value) =~= header_text(name, help, kind) + (sample
        + "\n"@));
}

// ---------------------------------------------------------------------------
// Words
// ---------------------------------------------------------------------------

/// Whether `y` never stands right behind `x`.
spec fn apart(s: Seq<char>, x: char, y: char) -> bool {
    forall|i: int| 0 <= i < s.len() - 1 ==> !(#[trigger] s[i] == x && s[i + 1] == y)
}

proof fn lemma_apart_concat(a: Seq<char>, b: Seq<char>, x: char, y: char)
    requires
        apart(a, x, y),
        apart(b, x, y),
        a.len() == 0 || b.len() == 0 || a.last() != x || b[0] != y,
    ensures
        apart(a + b, x, y),
{
    let s = a + b;
    assert forall|i: int| 0 <= i < s.len() - 1 implies !(#[trigger] s[i] == x && s[i + 1] == y) by {
        if i < a.len() - 1 {
            assert(s[i] == a[i] && s[i + 1] == a[i + 1]);
        } else if i == a.len() - 1 {
            assert(s[i] == a.last() && s[i + 1] == b[0]);
        } else {
            assert(s[i] == b[i - a.len()] && s[i + 1] == b[i + 1 - a.len()]);
        }
    }
}

/// A text in which two characters stand apart holds no word in which they do not.
proof fn lemma_apart_word(s: Seq<char>, word: Seq<char>, k: int)
    requires
        0 <= k < word.len() - 1,
        apart(s, word[k], word[k + 1]),
    ensures
        !text::has_text(s, word),
{
    if text::has_text(s, word) {
        let i = choose|i: int| text::occurs_at(s, word, i);
        let found = s.subrange(i, i + word.len());
        assert(found[k] == s[i + k] && found[k + 1] == s[i + k + 1]);
    }
}

/// Whether neither pair of characters stands together: one of them is in the name
/// of the revision, the other in that of the load.
#[verifier::opaque]
spec fn nameless(s: Seq<char>) -> bool {
    apart(s, 'n', 'f') && apart(s, 'u', '_')
}

/// Whether a text can stand next to others without making one of the pairs.
spec fn neutral(s: Seq<char>) -> bool {
    s.len() > 0 && s[0] != 'f' && s[0] != '_' && s.last() != 'n' && s.last() != 'u'
}

proof fn lemma_nameless_concat(a: Seq<char>, b: Seq<char>)
    requires
        nameless(a),
        nameless(b),
        a.len() == 0 || neutral(a) || neutral(b),
    ensures
        nameless(a + b),
{
    reveal(nameless);
    lemma_apart_concat(a, b, 'n', 'f');
    lemma_apart_concat(a, b, 'u', '_');
}

proof fn lemma_nameless_number(value: Seq<char>)
    requires
        text::is_decimal(value),
    ensures
        nameless(value),
{
    reveal(nameless);
    text::lemma_decimal(value);
}

/// Whether a text is made of whole lines, each a description or a value, that name
/// neither the revision nor the load.
spec fn quiet(s: Seq<char>) -> bool {
    orderly(s) && nameless(s) && neutral(s)
}

proof fn lemma_quiet_concat(a: Seq<char>, b: Seq<char>)
    requires
        quiet(a),
        quiet(b),
    ensures
        quiet(a + b),
{
    lemma_orderly_concat(a, b);
    lemma_nameless_concat(a, b);
}

/// Whether a metric can have this name and this description.
#[verifier::opaque]
spec fn worded(name: Seq<char>, help: Seq<char>) -> bool {
    is_name(name) && one_line(help)
}

proof fn lemma_nameless_header(name: Seq<char>, help: Seq<char>, kind: Seq<char>)
    requires
        nameless(name),
        nameless(help),
        nameless(kind),
    ensures
        nameless(header_text(name, help, kind)),
        neutral(header_text(name, help, kind)),
{
    assert(nameless("# HELP "@) && nameless(" "@) && nameless("\n# TYPE "@) && nameless("\n"@)) by {
        reveal(nameless);
        reveal_strlit("# HELP ");
        reveal_strlit(" ");
        reveal_strlit("\n# TYPE ");
        reveal_strlit("\n");
    }
    reveal_strlit("# HELP ");
    reveal_strlit(" ");
    reveal_strlit("\n# TYPE ");
    reveal_strlit("\n");
    let a = "# HELP "@ + name;
    let b = a + " "@;
    let c = b + help;
    let d = c + "\n# TYPE "@;
    let e = d + name;
    let f = e + " "@;
    let g = f + kind;
    lemma_nameless_concat("# HELP "@, name);
    lemma_nameless_concat(a, " "@);
    assert(neutral(b));
    lemma_nameless_concat(b, help);
    lemma_nameless_concat(c, "\n# TYPE "@);
    assert(neutral(d));
    lemma_nameless_concat(d, name);
    lemma_nameless_concat(e, " "@);
    assert(neutral(f));
    lemma_nameless_concat(f, kind);
    lemma_nameless_concat(g, "\n"@);
}

proof fn lemma_quiet_metric(name: Seq<char>, help: Seq<char>, kind: Seq<char>, value: Seq<char>)
    requires
        worded(name, help),
        nameless(name),
        nameless(help),
        nameless(kind),
        one_line(kind),
        text::is_decimal(value),
    ensures
        quiet(metric_text(name, help, kind, value)),
{
    reveal(worded);
    lemma_orderly_metric(name, help, kind, value);
    lemma_nameless_header(name, help, kind);
    lemma_nameless_number(value);
    assert(nameless(" "@) && nameless("\n"@)) by {
        reveal(nameless);
        reveal_strlit(" ");
        reveal_strlit("\n");
    }
    reveal_strlit(" ");
    reveal_strlit("\n");
    let head = header_text(name, help, kind);
    let sample = sample_text(name, Seq::empty(), value);
    let front = name + " "@;
    assert(sample =~= front + value);
    lemma_nameless_concat(name, " "@);
    lemma_nameless_concat(head, front);
    assert(neutral(head + front));
    lemma_nameless_concat(head + front, value);
    lemma_nameless_concat(head + front + value, "\n"@);
    assert(metric_text(name, help, kind, value) =~= head + front + value + "\n"@);
}

proof fn lemma_quiet_counter(name: Seq<char>, help: Seq<char>, value: u64)
    requires
        worded(name, help),
        nameless(name),
        nameless(help),
    ensures
        quiet(counter_text(name, help, value)),
{
    reveal_strlit("counter");
    assert(nameless("counter"@)) by {
        reveal(nameless);
    }
    text::lemma_dec_is_decimal(value as nat);
    lemma_quiet_metric(name, help, "counter"@, text::dec(value as nat));
}

proof fn lemma_plain_label(s: Seq<char>)
    requires
        forall|i: int|
            0 <= i < s.len() ==> #[trigger] s[i] != '\\' && s[i] != '"' && s[i] != '\n',
    ensures
        label_value(s) == s,
    decreases s.len(),
{
    if s.len() > 0 {
        lemma_plain_label(s.drop_last());
        assert(label_value(s) =~= s);
    } else {
        assert(label_value(s) =~= s);
    }
}

proof fn lemma_outcomes_nameless()
    ensures
        nameless("tv_shell_deploy_total{outcome=\"ok\"} "@),
        nameless("tv_shell_deploy_total{outcome=\"error\"} "@),
{
    reveal(nameless);
    reveal_strlit("tv_shell_deploy_total{outcome=\"ok\"} ");
    reveal_strlit("tv_shell_deploy_total{outcome=\"error\"} ");
}

proof fn lemma_quiet_outcome(outcome: Seq<char>, value: nat)
    requires
        outcome == "ok"@ || outcome == "error"@,
    ensures
        quiet(
            sample_text("tv_shell_deploy_total"@, seq![("outcome"@, outcome)], text::dec(value))
                + "\n"@,
        ),
{
    reveal_strlit("tv_shell_deploy_total");
    reveal_strlit("outcome");
    reveal_strlit("ok");
    reveal_strlit("error");
    reveal_strlit("{");
    reveal_strlit("=\"");
    reveal_strlit("\"");
    reveal_strlit("}");
    reveal_strlit(" ");
    reveal_strlit("\n");
    let labels = seq![("outcome"@, outcome)];
    let number = text::dec(value);
    let sample = sample_text("tv_shell_deploy_total"@, labels, number);
    text::lemma_dec_is_decimal(value);
    lemma_orderly_sample("tv_shell_deploy_total"@, labels, number);
    lemma_nameless_number(number);
    lemma_plain_label(outcome);
    let parts = Seq::new(labels.len(), |i: int| label_text(labels[i]));
    assert(text::joined(parts, ","@) == label_text(("outcome"@, outcome)));
    let front = "tv_shell_deploy_total"@ + ("{"@ + ("outcome"@ + "=\""@ + outcome + "\""@) + "}"@)
        + " "@;
    assert(sample =~= front + number);
    lemma_outcomes_nameless();
    reveal_strlit("tv_shell_deploy_total{outcome=\"ok\"} ");
    reveal_strlit("tv_shell_deploy_total{outcome=\"error\"} ");
    if outcome == "ok"@ {
        assert(front =~= "tv_shell_deploy_total{outcome=\"ok\"} "@);
    } else {
        assert(front =~= "tv_shell_deploy_total{outcome=\"error\"} "@);
    }
    assert(nameless("\n"@)) by {
        reveal(nameless);
    }
    lemma_nameless_concat(front, number);
    lemma_nameless_concat(front + number, "\n"@);
}

proof fn lemma_deploy_worded()
    ensures
        worded("tv_shell_deploy_total"@, "/dev/deploy attempts via the HTTP bridge, by outcome."@),
        nameless("tv_shell_deploy_total"@),
        nameless("/dev/deploy attempts via the HTTP bridge, by outcome."@),
{
    reveal(worded);
    reveal(nameless);
    reveal_strlit("tv_shell_deploy_total");
    reveal_strlit("/dev/deploy attempts via the HTTP bridge, by outcome.");
}

proof fn lemma_input_events_worded()
    ensures
        worded("tv_shell_input_events_total"@, "Raw gamepad input events read and processed by the input runtime."@),
        nameless("tv_shell_input_events_total"@),
        nameless("Raw gamepad input events read and processed by the input runtime."@),
{
    reveal(worded);
    reveal(nameless);
    reveal_strlit("tv_shell_input_events_total");
    reveal_strlit("Raw gamepad input events read and processed by the input runtime.");
}

proof fn lemma_intents_emitted_worded()
    ensures
        worded("tv_shell_intents_emitted_total"@, "Shell intents broadcast on the event bus (intent:<name>)."@),
        nameless("tv_shell_intents_emitted_total"@),
        nameless("Shell intents broadcast on the event bus (intent:<name>)."@),
{
    reveal(worded);
    reveal(nameless);
    reveal_strlit("tv_shell_intents_emitted_total");
    reveal_strlit("Shell intents broadcast on the event bus (intent:<name>).");
}

proof fn lemma_transitions_worded()
    ensures
        worded("tv_shell_transitions_total"@, "Shell<->game presenter transitions (grab/release/handoff)."@),
        nameless("tv_shell_transitions_total"@),
        nameless("Shell<->game presenter transitions (grab/release/handoff)."@),
{
    reveal(worded);
    reveal(nameless);
    reveal_strlit("tv_shell_transitions_total");
    reveal_strlit("Shell<->game presenter transitions (grab/release/handoff).");
}

proof fn lemma_pad_joins_worded()
    ensures
        worded("tv_shell_pad_joins_total"@, "Gamepads that joined the fleet (hot-join or initial enumeration)."@),
        nameless("tv_shell_pad_joins_total"@),
        nameless("Gamepads that joined the fleet (hot-join or initial enumeration)."@),
{
    reveal(worded);
    reveal(nameless);
    reveal_strlit("tv_shell_pad_joins_total");
    reveal_strlit("Gamepads that joined the fleet (hot-join or initial enumeration).");
}

proof fn lemma_pad_leaves_worded()
    ensures
        worded("tv_shell_pad_leaves_total"@, "Gamepads that left the fleet (disconnect)."@),
        nameless("tv_shell_pad_leaves_total"@),
        nameless("Gamepads that left the fleet (disconnect)."@),
{
    reveal(worded);
    reveal(nameless);
    reveal_strlit("tv_shell_pad_leaves_total");
    reveal_strlit("Gamepads that left the fleet (disconnect).");
}

proof fn lemma_shell_restarts_worded()
    ensures
        worded("tv_shell_shell_restarts_total"@, "tv-shell-input daemon starts observed this boot session."@),
        nameless("tv_shell_shell_restarts_total"@),
        nameless("tv-shell-input daemon starts observed this boot session."@),
{
    reveal(worded);
    reveal(nameless);
    reveal_strlit("tv_shell_shell_restarts_total");
    reveal_strlit("tv-shell-input daemon starts observed this boot session.");
}

proof fn lemma_runtime_restarts_worded()
    ensures
        worded("tv_shell_input_runtime_restarts_total"@, "In-process input-runtime respawns after a panic (distinct from daemon process starts in tv_shell_shell_restarts_total)."@),
        nameless("tv_shell_input_runtime_restarts_total"@),
        nameless("In-process input-runtime respawns after a panic (distinct from daemon process starts in tv_shell_shell_restarts_total)."@),
{
    reveal(worded);
    reveal(nameless);
    reveal_strlit("tv_shell_input_runtime_restarts_total");
    reveal_strlit("In-process input-runtime respawns after a panic (distinct from daemon process starts in tv_shell_shell_restarts_total).");
}

proof fn lemma_grab_invariant_violations_worded()
    ensures
        worded("tv_shell_grab_invariant_violations_total"@, "Grab-state drift detected: a pad's physical EVIOCGRAB disagreed with the presenter policy after a transition (should stay 0)."@),
        nameless("tv_shell_grab_invariant_violations_total"@),
        nameless("Grab-state drift detected: a pad's physical EVIOCGRAB disagreed with the presenter policy after a transition (should stay 0)."@),
{
    reveal(worded);
    reveal(nameless);
    reveal_strlit("tv_shell_grab_invariant_violations_total");
    reveal_strlit("Grab-state drift detected: a pad's physical EVIOCGRAB disagreed with the presenter policy after a transition (should stay 0).");
}

proof fn lemma_runtime_up_worded()
    ensures
        worded("tv_shell_input_runtime_up"@, "Input runtime liveness (1 = supervised event loop running, 0 = dead/panic-exhausted)."@),
        nameless("tv_shell_input_runtime_up"@),
        nameless("Input runtime liveness (1 = supervised event loop running, 0 = dead/panic-exhausted)."@),
{
    reveal(worded);
    reveal(nameless);
    reveal_strlit("tv_shell_input_runtime_up");
    reveal_strlit("Input runtime liveness (1 = supervised event loop running, 0 = dead/panic-exhausted).");
}

proof fn lemma_build_actions_worded()
    ensures
        worded("tv_shell_build_total"@, "/dev/build attempts via the HTTP bridge."@),
        nameless("tv_shell_build_total"@),
        nameless("/dev/build attempts via the HTTP bridge."@),
{
    reveal(worded);
    reveal(nameless);
    reveal_strlit("tv_shell_build_total");
    reveal_strlit("/dev/build attempts via the HTTP bridge.");
}

proof fn lemma_restart_shell_actions_worded()
    ensures
        worded("tv_shell_restart_shell_total"@, "/dev/restart-shell attempts via the HTTP bridge."@),
        nameless("tv_shell_restart_shell_total"@),
        nameless("/dev/restart-shell attempts via the HTTP bridge."@),
{
    reveal(worded);
    reveal(nameless);
    reveal_strlit("tv_shell_restart_shell_total");
    reveal_strlit("/dev/restart-shell attempts via the HTTP bridge.");
}

proof fn lemma_restart_daemon_actions_worded()
    ensures
        worded("tv_shell_restart_daemon_total"@, "/dev/restart-daemon (re-exec) requests via the HTTP bridge."@),
        nameless("tv_shell_restart_daemon_total"@),
        nameless("/dev/restart-daemon (re-exec) requests via the HTTP bridge."@),
{
    reveal(worded);
    reveal(nameless);
    reveal_strlit("tv_shell_restart_daemon_total");
    reveal_strlit("/dev/restart-daemon (re-exec) requests via the HTTP bridge.");
}

proof fn lemma_quickshell_multi_instance_worded()
    ensures
        worded("tv_shell_quickshell_multi_instance_total"@, "Times a shell restart (HTTP /dev/restart-shell or MCP restart_shell) detected >1 quickshell process after a restart settle (#254; should stay 0)."@),
        nameless("tv_shell_quickshell_multi_instance_total"@),
        nameless("Times a shell restart (HTTP /dev/restart-shell or MCP restart_shell) detected >1 quickshell process after a restart settle (#254; should stay 0)."@),
{
    reveal(worded);
    reveal(nameless);
    reveal_strlit("tv_shell_quickshell_multi_instance_total");
    reveal_strlit("Times a shell restart (HTTP /dev/restart-shell or MCP restart_shell) detected >1 quickshell process after a restart settle (#254; should stay 0).");
}

#[verifier::spinoff_prover]
#[verifier::rlimit(50)]
proof fn lemma_quickshell_warnings_worded()
    ensures
        worded("tv_shell_quickshell_warnings_total"@, "WARN/ERROR lines written by the Quickshell QML process to /tmp/qs-log.txt, sampled periodically by the daemon (#441). A healthy shell start emits a handful, not hundreds. The log is truncated on every shell start and the scanner treats a shrink or an inode change as a new file, so the counter stays monotonic across shell restarts; on daemon start it seeds from the current file WITHOUT counting its history, so a daemon restart does not replay a whole session. A missing log counts as an empty one, so on a cold boot the seed lands at zero before the shell starts and the startup burst IS counted. Warnings written and truncated away inside one scan interval are not counted."@),
        nameless("tv_shell_quickshell_warnings_total"@),
        nameless("WARN/ERROR lines written by the Quickshell QML process to /tmp/qs-log.txt, sampled periodically by the daemon (#441). A healthy shell start emits a handful, not hundreds. The log is truncated on every shell start and the scanner treats a shrink or an inode change as a new file, so the counter stays monotonic across shell restarts; on daemon start it seeds from the current file WITHOUT counting its history, so a daemon restart does not replay a whole session. A missing log counts as an empty one, so on a cold boot the seed lands at zero before the shell starts and the startup burst IS counted. Warnings written and truncated away inside one scan interval are not counted."@),
{
    reveal(worded);
    reveal(nameless);
    reveal_strlit("tv_shell_quickshell_warnings_total");
    reveal_strlit("WARN/ERROR lines written by the Quickshell QML process to /tmp/qs-log.txt, sampled periodically by the daemon (#441). A healthy shell start emits a handful, not hundreds. The log is truncated on every shell start and the scanner treats a shrink or an inode change as a new file, so the counter stays monotonic across shell restarts; on daemon start it seeds from the current file WITHOUT counting its history, so a daemon restart does not replay a whole session. A missing log counts as an empty one, so on a cold boot the seed lands at zero before the shell starts and the startup burst IS counted. Warnings written and truncated away inside one scan interval are not counted.");
}

proof fn lemma_cpu_worded()
    ensures
        worded("tv_shell_cpu_percent"@, "Aggregate CPU utilisation 0..=100 (convenience; prefer node_exporter)."@),
{
    reveal(worded);
    reveal_strlit("tv_shell_cpu_percent");
    reveal_strlit("Aggregate CPU utilisation 0..=100 (convenience; prefer node_exporter).");
}

proof fn lemma_mem_used_worded()
    ensures
        worded("tv_shell_mem_used_bytes"@, "Used memory in bytes (convenience; prefer node_exporter)."@),
{
    reveal(worded);
    reveal_strlit("tv_shell_mem_used_bytes");
    reveal_strlit("Used memory in bytes (convenience; prefer node_exporter).");
}

proof fn lemma_mem_total_worded()
    ensures
        worded("tv_shell_mem_total_bytes"@, "Total memory in bytes (convenience; prefer node_exporter)."@),
{
    reveal(worded);
    reveal_strlit("tv_shell_mem_total_bytes");
    reveal_strlit("Total memory in bytes (convenience; prefer node_exporter).");
}

proof fn lemma_load_worded()
    ensures
        worded("tv_shell_load1"@, "1-minute load average (convenience; prefer node_exporter)."@),
{
    reveal(worded);
    reveal_strlit("tv_shell_load1");
    reveal_strlit("1-minute load average (convenience; prefer node_exporter).");
}

proof fn lemma_temperature_worded()
    ensures
        worded("tv_shell_temperature_celsius"@, "Hardware temperature sensor reading in degrees Celsius (convenience; prefer node_exporter)."@),
{
    reveal(worded);
    reveal_strlit("tv_shell_temperature_celsius");
    reveal_strlit("Hardware temperature sensor reading in degrees Celsius (convenience; prefer node_exporter).");
}

proof fn lemma_build_worded()
    ensures
        worded("tv_shell_build_info"@, "Currently deployed tv-shell revision (value is always 1; identity is in the labels)."@),
{
    reveal(worded);
    reveal_strlit("tv_shell_build_info");
    reveal_strlit("Currently deployed tv-shell revision (value is always 1; identity is in the labels).");
}

proof fn lemma_kinds()
    ensures
        one_line("counter"@),
        one_line("gauge"@),
        nameless("counter"@),
        nameless("gauge"@),
{
    reveal(nameless);
    reveal_strlit("counter");
    reveal_strlit("gauge");
}

proof fn lemma_input_quiet(c: Metrics)
    ensures
        quiet(input_text(c)),
{
    lemma_input_events_worded();
    let name = "tv_shell_input_events_total"@;
    let help =
        "Raw gamepad input events read and processed by the input runtime."@;
    lemma_quiet_counter(name, help, c.input_events);
    let m = counter_text(name, help, c.input_events);
    let t = m;
    lemma_intents_emitted_worded();
    let name = "tv_shell_intents_emitted_total"@;
    let help =
        "Shell intents broadcast on the event bus (intent:<name>)."@;
    lemma_quiet_counter(name, help, c.intents_emitted);
    let m = counter_text(name, help, c.intents_emitted);
    lemma_quiet_concat(t, m);
    let t = t + m;
    lemma_transitions_worded();
    let name = "tv_shell_transitions_total"@;
    let help =
        "Shell<->game presenter transitions (grab/release/handoff)."@;
    lemma_quiet_counter(name, help, c.transitions);
    let m = counter_text(name, help, c.transitions);
    lemma_quiet_concat(t, m);
    let t = t + m;
    lemma_pad_joins_worded();
    let name = "tv_shell_pad_joins_total"@;
    let help =
        "Gamepads that joined the fleet (hot-join or initial enumeration)."@;
    lemma_quiet_counter(name, help, c.pad_joins);
    let m = counter_text(name, help, c.pad_joins);
    lemma_quiet_concat(t, m);
    let t = t + m;
    lemma_pad_leaves_worded();
    let name = "tv_shell_pad_leaves_total"@;
    let help =
        "Gamepads that left the fleet (disconnect)."@;
    lemma_quiet_counter(name, help, c.pad_leaves);
    let m = counter_text(name, help, c.pad_leaves);
    lemma_quiet_concat(t, m);
    let t = t + m;
}

proof fn lemma_runtime_quiet(c: Metrics)
    ensures
        quiet(runtime_text(c)),
{
    lemma_shell_restarts_worded();
    let name = "tv_shell_shell_restarts_total"@;
    let help =
        "tv-shell-input daemon starts observed this boot session."@;
    lemma_quiet_counter(name, help, c.shell_restarts);
    let m = counter_text(name, help, c.shell_restarts);
    let t = m;
    lemma_runtime_restarts_worded();
    let name = "tv_shell_input_runtime_restarts_total"@;
    let help =
        "In-process input-runtime respawns after a panic (distinct from daemon process starts in tv_shell_shell_restarts_total)."@;
    lemma_quiet_counter(name, help, c.runtime_restarts);
    let m = counter_text(name, help, c.runtime_restarts);
    lemma_quiet_concat(t, m);
    let t = t + m;
    lemma_grab_invariant_violations_worded();
    let name = "tv_shell_grab_invariant_violations_total"@;
    let help =
        "Grab-state drift detected: a pad's physical EVIOCGRAB disagreed with the presenter policy after a transition (should stay 0)."@;
    lemma_quiet_counter(name, help, c.grab_invariant_violations);
    let m = counter_text(name, help, c.grab_invariant_violations);
    lemma_quiet_concat(t, m);
    let t = t + m;
    lemma_runtime_up_worded();
    lemma_kinds();
    text::lemma_dec_is_decimal(c.runtime_up as nat);
    let name = "tv_shell_input_runtime_up"@;
    let help =
        "Input runtime liveness (1 = supervised event loop running, 0 = dead/panic-exhausted)."@;
    lemma_quiet_metric(name, help, "gauge"@, text::dec(c.runtime_up as nat));
    let m = metric_text(name, help, "gauge"@, text::dec(c.runtime_up as nat));
    lemma_quiet_concat(t, m);
    let t = t + m;
}

proof fn lemma_action_quiet(c: Metrics)
    ensures
        quiet(action_text(c)),
{
    lemma_build_actions_worded();
    let name = "tv_shell_build_total"@;
    let help =
        "/dev/build attempts via the HTTP bridge."@;
    lemma_quiet_counter(name, help, c.build_actions);
    let m = counter_text(name, help, c.build_actions);
    let t = m;
    lemma_restart_shell_actions_worded();
    let name = "tv_shell_restart_shell_total"@;
    let help =
        "/dev/restart-shell attempts via the HTTP bridge."@;
    lemma_quiet_counter(name, help, c.restart_shell_actions);
    let m = counter_text(name, help, c.restart_shell_actions);
    lemma_quiet_concat(t, m);
    let t = t + m;
    lemma_restart_daemon_actions_worded();
    let name = "tv_shell_restart_daemon_total"@;
    let help =
        "/dev/restart-daemon (re-exec) requests via the HTTP bridge."@;
    lemma_quiet_counter(name, help, c.restart_daemon_actions);
    let m = counter_text(name, help, c.restart_daemon_actions);
    lemma_quiet_concat(t, m);
    let t = t + m;
}

proof fn lemma_shell_quiet(c: Metrics)
    ensures
        quiet(shell_text(c)),
{
    lemma_quickshell_multi_instance_worded();
    let name = "tv_shell_quickshell_multi_instance_total"@;
    let help =
        "Times a shell restart (HTTP /dev/restart-shell or MCP restart_shell) detected >1 quickshell process after a restart settle (#254; should stay 0)."@;
    lemma_quiet_counter(name, help, c.quickshell_multi_instance);
    let m = counter_text(name, help, c.quickshell_multi_instance);
    let t = m;
    lemma_quickshell_warnings_worded();
    let name = "tv_shell_quickshell_warnings_total"@;
    let help =
        "WARN/ERROR lines written by the Quickshell QML process to /tmp/qs-log.txt, sampled periodically by the daemon (#441). A healthy shell start emits a handful, not hundreds. The log is truncated on every shell start and the scanner treats a shrink or an inode change as a new file, so the counter stays monotonic across shell restarts; on daemon start it seeds from the current file WITHOUT counting its history, so a daemon restart does not replay a whole session. A missing log counts as an empty one, so on a cold boot the seed lands at zero before the shell starts and the startup burst IS counted. Warnings written and truncated away inside one scan interval are not counted."@;
    lemma_quiet_counter(name, help, c.quickshell_warnings);
    let m = counter_text(name, help, c.quickshell_warnings);
    lemma_quiet_concat(t, m);
    let t = t + m;
}

proof fn lemma_deploy_quiet(c: Metrics)
    ensures
        quiet(deploy_text(c)),
{
    let name = "tv_shell_deploy_total"@;
    let help = "/dev/deploy attempts via the HTTP bridge, by outcome."@;
    lemma_deploy_worded();
    lemma_kinds();
    reveal(worded);
    let head = header_text(name, help, "counter"@);
    lemma_orderly_header(name, help, "counter"@);
    lemma_nameless_header(name, help, "counter"@);
    lemma_quiet_outcome("ok"@, c.deploy_ok as nat);
    lemma_quiet_outcome("error"@, c.deploy_err as nat);
    let ok = sample_text(name, seq![("outcome"@, "ok"@)], text::dec(c.deploy_ok as nat)) + "\n"@;
    let err = sample_text(name, seq![("outcome"@, "error"@)], text::dec(c.deploy_err as nat)) + "\n"@;
    lemma_quiet_concat(head, ok);
    lemma_quiet_concat(head + ok, err);
    assert(deploy_text(c) =~= head + ok + err);
}

/// The counters name neither the revision nor the load.
proof fn lemma_counters_quiet(c: Metrics)
    ensures
        quiet(counters_text(c)),
{
    lemma_input_quiet(c);
    lemma_runtime_quiet(c);
    lemma_deploy_quiet(c);
    lemma_action_quiet(c);
    lemma_shell_quiet(c);
    let a = input_text(c) + runtime_text(c);
    let b = a + deploy_text(c);
    let d = b + action_text(c);
    lemma_quiet_concat(input_text(c), runtime_text(c));
    lemma_quiet_concat(a, deploy_text(c));
    lemma_quiet_concat(b, action_text(c));
    lemma_quiet_concat(d, shell_text(c));
}

proof fn lemma_temps_orderly(temps: Seq<TempEntry>)
    requires
        forall|i: int| 0 <= i < temps.len() ==> (#[trigger] temps[i]).wf(),
    ensures
        orderly(temps_text(temps)),
    decreases temps.len(),
{
    if temps.len() == 0 {
        reveal(orderly);
        assert(text::lines_of(Seq::empty()) =~= Seq::empty());
    } else {
        let t = temps.last();
        assert(temps[temps.len() - 1].wf());
        lemma_temps_orderly(temps.drop_last());
        lemma_temperature_worded();
        reveal(worded);
        reveal_strlit("sensor");
        lemma_orderly_sample(
            "tv_shell_temperature_celsius"@,
            seq![("sensor"@, t.label@)],
            t.celsius@,
        );
        lemma_orderly_concat(temps_text(temps.drop_last()), temp_text(t));
    }
}

proof fn lemma_sys_orderly(m: SysMetrics)
    requires
        m.wf(),
    ensures
        orderly(sys_text(m)),
{
    lemma_kinds();
    lemma_cpu_worded();
    lemma_mem_used_worded();
    lemma_mem_total_worded();
    lemma_load_worded();
    text::lemma_dec_is_decimal(m.mem_used as nat);
    text::lemma_dec_is_decimal(m.mem_total as nat);
    let name = "tv_shell_cpu_percent"@;
    let help = "Aggregate CPU utilisation 0..=100 (convenience; prefer node_exporter)."@;
    lemma_worded_metric(name, help, m.cpu_pct@);
    let p = metric_text(name, help, "gauge"@, m.cpu_pct@);
    let t = p;
    let name = "tv_shell_mem_used_bytes"@;
    let help = "Used memory in bytes (convenience; prefer node_exporter)."@;
    lemma_worded_metric(name, help, text::dec(m.mem_used as nat));
    let p = metric_text(name, help, "gauge"@, text::dec(m.mem_used as nat));
    lemma_orderly_concat(t, p);
    let t = t + p;
    let name = "tv_shell_mem_total_bytes"@;
    let help = "Total memory in bytes (convenience; prefer node_exporter)."@;
    lemma_worded_metric(name, help, text::dec(m.mem_total as nat));
    let p = metric_text(name, help, "gauge"@, text::dec(m.mem_total as nat));
    lemma_orderly_concat(t, p);
    let t = t + p;
    let name = "tv_shell_load1"@;
    let help = "1-minute load average (convenience; prefer node_exporter)."@;
    lemma_worded_metric(name, help, m.load1@);
    let p = metric_text(name, help, "gauge"@, m.load1@);
    lemma_orderly_concat(t, p);
    let t = t + p;
    if m.temps@.len() > 0 {
        let name = "tv_shell_temperature_celsius"@;
        let help =
            "Hardware temperature sensor reading in degrees Celsius (convenience; prefer node_exporter)."@;
        lemma_temperature_worded();
        lemma_worded_header(name, help);
        lemma_temps_orderly(m.temps@);
        let head = header_text(name, help, "gauge"@);
        lemma_orderly_concat(t, head);
        lemma_orderly_concat(t + head, temps_text(m.temps@));
    }
}

proof fn lemma_worded_header(name: Seq<char>, help: Seq<char>)
    requires
        worded(name, help),
    ensures
        orderly(header_text(name, help, "gauge"@)),
{
    reveal(worded);
    lemma_kinds();
    lemma_orderly_header(name, help, "gauge"@);
}

proof fn lemma_worded_metric(name: Seq<char>, help: Seq<char>, value: Seq<char>)
    requires
        worded(name, help),
        text::is_decimal(value),
    ensures
        orderly(metric_text(name, help, "gauge"@, value)),
{
    reveal(worded);
    lemma_kinds();
    lemma_orderly_metric(name, help, "gauge"@, value);
}

proof fn lemma_build_orderly(b: BuildInfo)
    ensures
        orderly(build_text(b)),
        text::lines_of(build_text(b)) == seq![
            "# HELP tv_shell_build_info "@
                + "Currently deployed tv-shell revision (value is always 1; identity is in the labels)."@,
            "# TYPE tv_shell_build_info gauge"@,
            sample_text("tv_shell_build_info"@, build_labels(b), "1"@),
        ],
{
    let name = "tv_shell_build_info"@;
    let help =
        "Currently deployed tv-shell revision (value is always 1; identity is in the labels)."@;
    lemma_build_worded();
    lemma_kinds();
    reveal(worded);
    reveal_strlit("sha");
    reveal_strlit("branch");
    reveal_strlit("version");
    text::lemma_dec_is_decimal(1);
    reveal_strlit("1");
    assert("1"@ =~= text::dec(1)) by {
        reveal_with_fuel(text::dec, 2);
    }
    let head = header_text(name, help, "gauge"@);
    let sample = sample_text(name, build_labels(b), "1"@);
    lemma_orderly_header(name, help, "gauge"@);
    lemma_orderly_sample(name, build_labels(b), "1"@);
    lemma_orderly_concat(head, sample + "\n"@);
    assert(build_text(b) =~= head + (sample + "\n"@));
    assert(head.len() > 0 && head.last() == '\n') by {
        reveal_strlit("\n");
    }
    text::lemma_lines_concat(head, sample + "\n"@);
    lemma_build_headings();
    assert(text::lines_of(build_text(b)) =~= seq![
        "# HELP tv_shell_build_info "@ + help,
        "# TYPE tv_shell_build_info gauge"@,
        sample,
    ]);
}

proof fn lemma_build_headings()
    ensures
        "# HELP "@ + "tv_shell_build_info"@ + " "@ == "# HELP tv_shell_build_info "@,
        "# TYPE "@ + "tv_shell_build_info"@ + " "@ + "gauge"@ == "# TYPE tv_shell_build_info gauge"@,
{
    reveal_strlit("# HELP ");
    reveal_strlit("# TYPE ");
    reveal_strlit("tv_shell_build_info");
    reveal_strlit(" ");
    reveal_strlit("gauge");
    reveal_strlit("# HELP tv_shell_build_info ");
    reveal_strlit("# TYPE tv_shell_build_info gauge");
    assert("# HELP "@ + "tv_shell_build_info"@ + " "@ =~= "# HELP tv_shell_build_info "@);
    assert("# TYPE "@ + "tv_shell_build_info"@ + " "@ + "gauge"@
        =~= "# TYPE tv_shell_build_info gauge"@);
}

// ---------------------------------------------------------------------------
// Laws
// ---------------------------------------------------------------------------

/// Whatever is counted and measured, each line of the exposition describes a metric
/// or is one value of one, and the last ends in a line feed.
#[verifier::spinoff_prover]
pub proof fn law_lines_are_descriptions_or_values(
    counters: Metrics,
    sys: Option<SysMetrics>,
    build: Option<BuildInfo>,
)
    requires
        sys matches Some(m) ==> m.wf(),
    ensures
        ends_line(exposition(counters, sys, build)),
        forall|i: int|
            0 <= i < text::lines_of(exposition(counters, sys, build)).len() ==> is_comment(
                #[trigger] text::lines_of(exposition(counters, sys, build))[i],
            ) || is_sample(text::lines_of(exposition(counters, sys, build))[i]),
{
    let first = match build {
        Some(b) => build_text(b),
        None => Seq::empty(),
    };
    let last = match sys {
        Some(m) => sys_text(m),
        None => Seq::empty(),
    };
    assert(orderly(Seq::empty())) by {
        reveal(orderly);
        assert(text::lines_of(Seq::empty()) =~= Seq::empty());
    }
    if let Some(b) = build {
        lemma_build_orderly(b);
    }
    if let Some(m) = sys {
        lemma_sys_orderly(m);
    }
    lemma_counters_quiet(counters);
    lemma_orderly_concat(first, counters_text(counters));
    lemma_orderly_concat(first + counters_text(counters), last);
    assert(exposition(counters, sys, build).len() > 0);
    reveal(orderly);
}

/// Whatever is rendered, it ends in a line feed.
pub proof fn law_exposition_ends_in_newline(
    counters: Metrics,
    sys: Option<SysMetrics>,
    build: Option<BuildInfo>,
)
    ensures
        ends_line(exposition(counters, sys, build)),
{
    let line = "tv_shell_input_events_total"@ + " "@ + text::dec(counters.input_events as nat);
    let first = match build {
        Some(b) => build_text(b),
        None => Seq::empty(),
    };
    let last = match sys {
        Some(m) => sys_text(m),
        None => Seq::empty(),
    };
    lemma_input_lines(counters);
    lemma_counter_lines(counters, line);
    lemma_parts_ended(sys, build);
    lemma_holds_behind(first, counters_text(counters), line);
    lemma_holds_before(first + counters_text(counters), last, line);
    reveal(holds);
}

proof fn lemma_sys_end(m: SysMetrics)
    ensures
        ends_line(sys_text(m)),
{
    reveal_strlit("\n");
    if m.temps@.len() > 0 {
        assert(temp_text(m.temps@.last()).last() == '\n');
        assert(temps_text(m.temps@).last() == '\n');
    }
}

/// The revision stands first and the load last, each only where it is given; what
/// stands between them does not depend on them, and names neither.
pub proof fn law_parts_of_the_exposition(
    counters: Metrics,
    sys: Option<SysMetrics>,
    build: Option<BuildInfo>,
    s: SysMetrics,
    b: BuildInfo,
)
    ensures
        exposition(counters, sys, Some(b)) == build_text(b) + exposition(counters, sys, None),
        exposition(counters, Some(s), build) == exposition(counters, None, build) + sys_text(s),
        !text::has_text(exposition(counters, None, None), "tv_shell_build_info"@),
        !text::has_text(exposition(counters, None, None), "tv_shell_cpu_percent"@),
{
    assert(exposition(counters, sys, Some(b)) =~= build_text(b) + exposition(counters, sys, None));
    assert(exposition(counters, Some(s), build) =~= exposition(counters, None, build) + sys_text(
        s,
    ));
    let middle = exposition(counters, None, None);
    assert(middle =~= counters_text(counters));
    lemma_counters_quiet(counters);
    reveal(nameless);
    reveal_strlit("tv_shell_build_info");
    reveal_strlit("tv_shell_cpu_percent");
    lemma_apart_word(middle, "tv_shell_build_info"@, 16);
    lemma_apart_word(middle, "tv_shell_cpu_percent"@, 11);
}

/// The part of the revision is three lines: what the metric says, its kind, and the
/// one value.
pub proof fn law_revision_is_three_lines(b: BuildInfo)
    ensures
        text::lines_of(build_text(b)) == seq![
            "# HELP tv_shell_build_info "@
                + "Currently deployed tv-shell revision (value is always 1; identity is in the labels)."@,
            "# TYPE tv_shell_build_info gauge"@,
            sample_text("tv_shell_build_info"@, build_labels(b), "1"@),
        ],
{
    lemma_build_orderly(b);
}

// ---------------------------------------------------------------------------
// The file that the collector reads
// ---------------------------------------------------------------------------

/// The file that the exposition is written to; an empty path is none.
pub fn textfile_target(path: Option<String>) -> (r: Option<String>)
    ensures
        match path {
            Some(p) => if p@.len() == 0 {
                r is None
            } else {
                r == Some(p)
            },
            None => r is None,
        },
{
    match path {
        Some(p) => if p.as_str().is_empty() {
            None
        } else {
            Some(p)
        },
        None => None,
    }
}

/// The name of the file that is written first and then renamed. It stands beside
/// the target and is told from that of another process by the process id.
pub fn temp_name(file_name: Option<&str>, pid: u32) -> (r: String)
    ensures
        r@ == "."@ + (match file_name {
            Some(n) => n@,
            None => "tv-shell"@,
        }) + "."@ + text::dec(pid as nat) + ".tmp"@,
{
    let mut out = ".".to_owned();
    match file_name {
        Some(n) => out.push_str(n),
        None => out.push_str("tv-shell"),
    }
    out.push_str(".");
    out.push_str(text::decimal(pid as u64).as_str());
    out.push_str(".tmp");
    out
}

// ---------------------------------------------------------------------------
// Warnings in the log of the shell
// ---------------------------------------------------------------------------

/// Milliseconds between two looks at the log of the shell.
pub const QS_WARNING_SCAN_INTERVAL_MS: u64 = 15_000;

/// `s` with the ASCII letters in lower case.
pub open spec fn lowered(s: Seq<char>) -> Seq<char> {
    s.map_values(|c: char| text::lower(c))
}

/// Whether a line of the log reports a warning or an error, whatever the case.
pub open spec fn warning_line(line: Seq<char>) -> bool {
    text::has_text(lowered(line), "warn"@) || text::has_text(lowered(line), "error"@)
}

/// Whether a line of the log reports a warning or an error, whatever the case.
pub fn is_warning_line(line: &str) -> (r: bool)
    ensures
        r == warning_line(line@),
{
    let v = text::chars_of(line);
    let mut low: Vec<char> = Vec::new();
    let mut i: usize = 0;
    while i < v.len()
        invariant
            i <= v.len(),
            low@.len() == i,
            forall|j: int| 0 <= j < i ==> low@[j] == text::lower(#[trigger] v@[j]),
        decreases v.len() - i,
    {
        low.push(text::to_lower(v[i]));
        i += 1;
    }
    assert(low@ =~= lowered(line@));
    text::chars_contain(&low, &text::chars_of("warn")) || text::chars_contain(
        &low,
        &text::chars_of("error"),
    )
}

/// How many of the lines report a warning or an error.
pub open spec fn warnings(lines: Seq<Seq<char>>) -> nat
    decreases lines.len(),
{
    if lines.len() == 0 {
        0
    } else {
        warnings(lines.drop_last()) + if warning_line(lines.last()) {
            1nat
        } else {
            0nat
        }
    }
}

/// How many lines of the log report a warning or an error.
pub fn count_warning_lines(text: &str) -> (r: u64)
    ensures
        r == warnings(text::lines_of(text@)),
{
    let all = text::lines(text);
    let ghost views = text::views(all@);
    let mut n: u64 = 0;
    let mut i: usize = 0;
    assert(views.take(0) =~= Seq::empty());
    while i < all.len()
        invariant
            i <= all.len(),
            n <= i,
            views == text::views(all@),
            n == warnings(views.take(i as int)),
        decreases all.len() - i,
    {
        let ghost next = views.take(i + 1);
        assert(next.drop_last() =~= views.take(i as int));
        assert(next.last() == all@[i as int]@);
        if is_warning_line(all[i].as_str()) {
            n += 1;
        }
        i += 1;
    }
    assert(views.take(i as int) =~= views);
    n
}

/// What is remembered of the log between two looks at it.
#[derive(Debug)]
pub struct ScanState {
    /// Whether the log was looked at before.
    pub seeded: bool,
    /// Its length then.
    pub last_len: u64,
    /// Its inode then, where there is one.
    pub last_ino: Option<u64>,
    /// The warnings in it then.
    pub last_count: u64,
}

impl Default for ScanState {
    fn default() -> (r: Self)
        ensures
            r == (ScanState { seeded: false, last_len: 0, last_ino: None, last_count: 0 }),
    {
        ScanState { seeded: false, last_len: 0, last_ino: None, last_count: 0 }
    }
}

/// Whether the log is another file than the one that was seen: it shrank, or both
/// inodes are known and differ.
pub open spec fn fresh_file(state: ScanState, len: u64, ino: Option<u64>) -> bool {
    len < state.last_len || (ino is Some && state.last_ino is Some && ino != state.last_ino)
}

/// The warnings to be counted at a look at the log. The first look counts none,
/// a fresh file counts in full, and what was appended counts alone.
pub open spec fn new_warnings(state: ScanState, len: u64, ino: Option<u64>, count: u64) -> u64 {
    if !state.seeded {
        0
    } else if fresh_file(state, len, ino) {
        count
    } else if count >= state.last_count {
        (count - state.last_count) as u64
    } else {
        0
    }
}

/// What is remembered after a look at the log.
pub open spec fn seen(len: u64, ino: Option<u64>, count: u64) -> ScanState {
    ScanState { seeded: true, last_len: len, last_ino: ino, last_count: count }
}

/// Takes a look at the log into account and gives the warnings to be counted.
pub fn warning_delta(state: &mut ScanState, len: u64, ino: Option<u64>, count: u64) -> (r: u64)
    ensures
        r == new_warnings(*old(state), len, ino, count),
        *final(state) == seen(len, ino, count),
{
    let replaced = match (ino, state.last_ino) {
        (Some(now), Some(before)) => now != before,
        _ => false,
    };
    let delta: u64 = if !state.seeded {
        0
    } else if len < state.last_len || replaced {
        count
    } else {
        count.saturating_sub(state.last_count)
    };
    state.seeded = true;
    state.last_len = len;
    state.last_ino = ino;
    state.last_count = count;
    delta
}

/// What a look at the log found.
#[derive(Debug, Clone, PartialEq, Eq)]
pub enum Sample {
    /// The log as it was read: bytes, inode and text.
    Read { len: u64, ino: Option<u64>, text: String },
    /// There is no log.
    Absent,
    /// The log could not be read.
    Failed,
}

/// One turn of the scanner. A log that is absent counts as an empty one; one that
/// could not be read says nothing.
pub fn scan_step(state: &mut ScanState, counters: &mut Metrics, sample: &Sample)
    ensures
        match *sample {
            Sample::Read { len, ino, text } => {
                let count = warnings(text::lines_of(text@)) as u64;
                &&& *final(state) == seen(len, ino, count)
                &&& *final(counters) == (Metrics {
                    quickshell_warnings: vstd::wrapping::u64_specs::wrapping_add(
                        old(counters).quickshell_warnings,
                        new_warnings(*old(state), len, ino, count),
                    ),
                    ..*old(counters)
                })
            },
            Sample::Absent => {
                &&& *final(state) == seen(0, None, 0)
                &&& *final(counters) == *old(counters)
            },
            Sample::Failed => *final(state) == *old(state) && *final(counters) == *old(counters),
        },
{
    match sample {
        Sample::Read { len, ino, text } => {
            let count = count_warning_lines(text.as_str());
            let delta = warning_delta(state, *len, *ino, count);
            if delta > 0 {
                counters.add_quickshell_warnings(delta);
            }
        },
        Sample::Absent => {
            let _ = warning_delta(state, 0, None, 0);
        },
        Sample::Failed => {},
    }
}

/// A warning is counted once: what the scanner adds over two looks at a log that
/// only grew is what it adds in one look at the end.
pub proof fn law_appends_add_up(
    state: ScanState,
    len1: u64,
    len2: u64,
    ino: Option<u64>,
    count1: u64,
    count2: u64,
)
    requires
        state.seeded,
        state.last_ino == ino,
        state.last_len <= len1 <= len2,
        state.last_count <= count1 <= count2,
    ensures
        new_warnings(state, len1, ino, count1) + new_warnings(
            seen(len1, ino, count1),
            len2,
            ino,
            count2,
        ) == new_warnings(state, len2, ino, count2),
{
}

/// A log that was absent at the first look counts in full at the second, and one
/// that was there does not count at the first.
pub proof fn law_history_is_not_counted(len: u64, ino: Option<u64>, count: u64, unseeded: ScanState)
    requires
        !unseeded.seeded,
    ensures
        new_warnings(unseeded, len, ino, count) == 0,
        new_warnings(seen(0, None, 0), len, ino, count) == count,
{
}

/// The counter of warnings never falls, whatever becomes of the log, until it runs
/// over.
pub proof fn law_warnings_never_fall(
    counter: u64,
    state: ScanState,
    len: u64,
    ino: Option<u64>,
    count: u64,
)
    requires
        counter + new_warnings(state, len, ino, count) <= u64::MAX,
    ensures
        vstd::wrapping::u64_specs::wrapping_add(counter, new_warnings(state, len, ino, count))
            == counter + new_warnings(state, len, ino, count),
{
}

/// A look never counts more warnings than the log holds.
pub proof fn law_counts_no_more_than_present(
    state: ScanState,
    len: u64,
    ino: Option<u64>,
    count: u64,
)
    ensures
        new_warnings(state, len, ino, count) <= count,
{
}

// ---------------------------------------------------------------------------
// Laws of what is exposed
// ---------------------------------------------------------------------------

/// Whether a text is made of whole lines, and `line` is one of them.
#[verifier::opaque]
spec fn holds(s: Seq<char>, line: Seq<char>) -> bool {
    s.len() > 0 && s.last() == '\n' && text::lines_of(s).contains(line)
}

/// Whether a text is made of whole lines.
#[verifier::opaque]
spec fn ended(s: Seq<char>) -> bool {
    s.len() == 0 || s.last() == '\n'
}

proof fn lemma_ended(a: Seq<char>, b: Seq<char>)
    requires
        ended(a),
        ended(b),
    ensures
        ended(a + b),
{
    reveal(ended);
    if b.len() == 0 {
        assert(a + b =~= a);
    } else {
        assert((a + b).last() == b.last());
    }
}

proof fn lemma_holds_before(a: Seq<char>, b: Seq<char>, line: Seq<char>)
    requires
        holds(a, line),
        ended(b),
    ensures
        holds(a + b, line),
{
    reveal(holds);
    reveal(ended);
    text::lemma_lines_concat(a, b);
    let k = choose|k: int| 0 <= k < text::lines_of(a).len() && text::lines_of(a)[k] == line;
    assert(text::lines_of(a + b)[k] == line);
    if b.len() == 0 {
        assert(a + b =~= a);
    } else {
        assert((a + b).last() == b.last());
    }
}

proof fn lemma_holds_behind(a: Seq<char>, b: Seq<char>, line: Seq<char>)
    requires
        ended(a),
        holds(b, line),
    ensures
        holds(a + b, line),
{
    reveal(holds);
    reveal(ended);
    text::lemma_lines_concat(a, b);
    let k = choose|k: int| 0 <= k < text::lines_of(b).len() && text::lines_of(b)[k] == line;
    assert(text::lines_of(a + b)[text::lines_of(a).len() + k] == line);
    assert((a + b).last() == b.last());
}

proof fn lemma_metric_line(name: Seq<char>, help: Seq<char>, kind: Seq<char>, value: Seq<char>)
    requires
        worded(name, help),
        one_line(kind),
        text::is_decimal(value),
    ensures
        holds(metric_text(name, help, kind, value), name + " "@ + value),
        ended(metric_text(name, help, kind, value)),
{
    reveal(worded);
    reveal(holds);
    reveal(ended);
    reveal_strlit("\n");
    lemma_orderly_header(name, help, kind);
    lemma_orderly_sample(name, Seq::empty(), value);
    let head = header_text(name, help, kind);
    let sample = sample_text(name, Seq::empty(), value);
    assert(sample =~= name + " "@ + value);
    assert(head.last() == '\n');
    assert(metric_text(name, help, kind, value) =~= head + (sample + "\n"@));
    text::lemma_lines_concat(head, sample + "\n"@);
    let lines = text::lines_of(metric_text(name, help, kind, value));
    assert(lines[2] == sample);
}

proof fn lemma_sample_line(
    name: Seq<char>,
    labels: Seq<(Seq<char>, Seq<char>)>,
    value: Seq<char>,
)
    requires
        is_name(name),
        text::is_decimal(value),
        forall|i: int| 0 <= i < labels.len() ==> is_name((#[trigger] labels[i]).0),
    ensures
        holds(
            sample_text(name, labels, value) + "\n"@,
            name + labels_text(labels) + " "@ + value,
        ),
        ended(sample_text(name, labels, value) + "\n"@),
{
    reveal(holds);
    reveal(ended);
    reveal_strlit("\n");
    lemma_orderly_sample(name, labels, value);
    assert(text::lines_of(sample_text(name, labels, value) + "\n"@)[0] == sample_text(
        name,
        labels,
        value,
    ));
}

proof fn lemma_header_ended(name: Seq<char>, help: Seq<char>, kind: Seq<char>)
    ensures
        ended(header_text(name, help, kind)),
{
    reveal(ended);
    reveal_strlit("\n");
}

proof fn lemma_input_lines(c: Metrics)
    ensures
        holds(input_text(c), "tv_shell_input_events_total"@ + " "@ + text::dec(c.input_events as nat)),
        holds(input_text(c), "tv_shell_intents_emitted_total"@ + " "@ + text::dec(c.intents_emitted as nat)),
        holds(input_text(c), "tv_shell_transitions_total"@ + " "@ + text::dec(c.transitions as nat)),
        holds(input_text(c), "tv_shell_pad_joins_total"@ + " "@ + text::dec(c.pad_joins as nat)),
        holds(input_text(c), "tv_shell_pad_leaves_total"@ + " "@ + text::dec(c.pad_leaves as nat)),
        ended(input_text(c)),
{
    lemma_kinds();
    lemma_input_events_worded();
    text::lemma_dec_is_decimal(c.input_events as nat);
    let m = metric_text("tv_shell_input_events_total"@, "Raw gamepad input events read and processed by the input runtime."@, "counter"@, text::dec(c.input_events as nat));
    lemma_metric_line("tv_shell_input_events_total"@, "Raw gamepad input events read and processed by the input runtime."@, "counter"@, text::dec(c.input_events as nat));
    let t = m;
    lemma_intents_emitted_worded();
    text::lemma_dec_is_decimal(c.intents_emitted as nat);
    let m = metric_text("tv_shell_intents_emitted_total"@, "Shell intents broadcast on the event bus (intent:<name>)."@, "counter"@, text::dec(c.intents_emitted as nat));
    lemma_metric_line("tv_shell_intents_emitted_total"@, "Shell intents broadcast on the event bus (intent:<name>)."@, "counter"@, text::dec(c.intents_emitted as nat));
    lemma_holds_before(t, m, "tv_shell_input_events_total"@ + " "@ + text::dec(c.input_events as nat));
    lemma_holds_behind(t, m, "tv_shell_intents_emitted_total"@ + " "@ + text::dec(c.intents_emitted as nat));
    lemma_ended(t, m);
    let t = t + m;
    lemma_transitions_worded();
    text::lemma_dec_is_decimal(c.transitions as nat);
    let m = metric_text("tv_shell_transitions_total"@, "Shell<->game presenter transitions (grab/release/handoff)."@, "counter"@, text::dec(c.transitions as nat));
    lemma_metric_line("tv_shell_transitions_total"@, "Shell<->game presenter transitions (grab/release/handoff)."@, "counter"@, text::dec(c.transitions as nat));
    lemma_holds_before(t, m, "tv_shell_input_events_total"@ + " "@ + text::dec(c.input_events as nat));
    lemma_holds_before(t, m, "tv_shell_intents_emitted_total"@ + " "@ + text::dec(c.intents_emitted as nat));
    lemma_holds_behind(t, m, "tv_shell_transitions_total"@ + " "@ + text::dec(c.transitions as nat));
    lemma_ended(t, m);
    let t = t + m;
    lemma_pad_joins_worded();
    text::lemma_dec_is_decimal(c.pad_joins as nat);
    let m = metric_text("tv_shell_pad_joins_total"@, "Gamepads that joined the fleet (hot-join or initial enumeration)."@, "counter"@, text::dec(c.pad_joins as nat));
    lemma_metric_line("tv_shell_pad_joins_total"@, "Gamepads that joined the fleet (hot-join or initial enumeration)."@, "counter"@, text::dec(c.pad_joins as nat));
    lemma_holds_before(t, m, "tv_shell_input_events_total"@ + " "@ + text::dec(c.input_events as nat));
    lemma_holds_before(t, m, "tv_shell_intents_emitted_total"@ + " "@ + text::dec(c.intents_emitted as nat));
    lemma_holds_before(t, m, "tv_shell_transitions_total"@ + " "@ + text::dec(c.transitions as nat));
    lemma_holds_behind(t, m, "tv_shell_pad_joins_total"@ + " "@ + text::dec(c.pad_joins as nat));
    lemma_ended(t, m);
    let t = t + m;
    lemma_pad_leaves_worded();
    text::lemma_dec_is_decimal(c.pad_leaves as nat);
    let m = metric_text("tv_shell_pad_leaves_total"@, "Gamepads that left the fleet (disconnect)."@, "counter"@, text::dec(c.pad_leaves as nat));
    lemma_metric_line("tv_shell_pad_leaves_total"@, "Gamepads that left the fleet (disconnect)."@, "counter"@, text::dec(c.pad_leaves as nat));
    lemma_holds_before(t, m, "tv_shell_input_events_total"@ + " "@ + text::dec(c.input_events as nat));
    lemma_holds_before(t, m, "tv_shell_intents_emitted_total"@ + " "@ + text::dec(c.intents_emitted as nat));
    lemma_holds_before(t, m, "tv_shell_transitions_total"@ + " "@ + text::dec(c.transitions as nat));
    lemma_holds_before(t, m, "tv_shell_pad_joins_total"@ + " "@ + text::dec(c.pad_joins as nat));
    lemma_holds_behind(t, m, "tv_shell_pad_leaves_total"@ + " "@ + text::dec(c.pad_leaves as nat));
    lemma_ended(t, m);
    let t = t + m;
}

proof fn lemma_runtime_lines(c: Metrics)
    ensures
        holds(runtime_text(c), "tv_shell_shell_restarts_total"@ + " "@ + text::dec(c.shell_restarts as nat)),
        holds(runtime_text(c), "tv_shell_input_runtime_restarts_total"@ + " "@ + text::dec(c.runtime_restarts as nat)),
        holds(runtime_text(c), "tv_shell_grab_invariant_violations_total"@ + " "@ + text::dec(c.grab_invariant_violations as nat)),
        holds(runtime_text(c), "tv_shell_input_runtime_up"@ + " "@ + text::dec(c.runtime_up as nat)),
        ended(runtime_text(c)),
{
    lemma_kinds();
    lemma_shell_restarts_worded();
    text::lemma_dec_is_decimal(c.shell_restarts as nat);
    let m = metric_text("tv_shell_shell_restarts_total"@, "tv-shell-input daemon starts observed this boot session."@, "counter"@, text::dec(c.shell_restarts as nat));
    lemma_metric_line("tv_shell_shell_restarts_total"@, "tv-shell-input daemon starts observed this boot session."@, "counter"@, text::dec(c.shell_restarts as nat));
    let t = m;
    lemma_runtime_restarts_worded();
    text::lemma_dec_is_decimal(c.runtime_restarts as nat);
    let m = metric_text("tv_shell_input_runtime_restarts_total"@, "In-process input-runtime respawns after a panic (distinct from daemon process starts in tv_shell_shell_restarts_total)."@, "counter"@, text::dec(c.runtime_restarts as nat));
    lemma_metric_line("tv_shell_input_runtime_restarts_total"@, "In-process input-runtime respawns after a panic (distinct from daemon process starts in tv_shell_shell_restarts_total)."@, "counter"@, text::dec(c.runtime_restarts as nat));
    lemma_holds_before(t, m, "tv_shell_shell_restarts_total"@ + " "@ + text::dec(c.shell_restarts as nat));
    lemma_holds_behind(t, m, "tv_shell_input_runtime_restarts_total"@ + " "@ + text::dec(c.runtime_restarts as nat));
    lemma_ended(t, m);
    let t = t + m;
    lemma_grab_invariant_violations_worded();
    text::lemma_dec_is_decimal(c.grab_invariant_violations as nat);
    let m = metric_text("tv_shell_grab_invariant_violations_total"@, "Grab-state drift detected: a pad's physical EVIOCGRAB disagreed with the presenter policy after a transition (should stay 0)."@, "counter"@, text::dec(c.grab_invariant_violations as nat));
    lemma_metric_line("tv_shell_grab_invariant_violations_total"@, "Grab-state drift detected: a pad's physical EVIOCGRAB disagreed with the presenter policy after a transition (should stay 0)."@, "counter"@, text::dec(c.grab_invariant_violations as nat));
    lemma_holds_before(t, m, "tv_shell_shell_restarts_total"@ + " "@ + text::dec(c.shell_restarts as nat));
    lemma_holds_before(t, m, "tv_shell_input_runtime_restarts_total"@ + " "@ + text::dec(c.runtime_restarts as nat));
    lemma_holds_behind(t, m, "tv_shell_grab_invariant_violations_total"@ + " "@ + text::dec(c.grab_invariant_violations as nat));
    lemma_ended(t, m);
    let t = t + m;
    lemma_runtime_up_worded();
    text::lemma_dec_is_decimal(c.runtime_up as nat);
    let m = metric_text("tv_shell_input_runtime_up"@, "Input runtime liveness (1 = supervised event loop running, 0 = dead/panic-exhausted)."@, "gauge"@, text::dec(c.runtime_up as nat));
    lemma_metric_line("tv_shell_input_runtime_up"@, "Input runtime liveness (1 = supervised event loop running, 0 = dead/panic-exhausted)."@, "gauge"@, text::dec(c.runtime_up as nat));
    lemma_holds_before(t, m, "tv_shell_shell_restarts_total"@ + " "@ + text::dec(c.shell_restarts as nat));
    lemma_holds_before(t, m, "tv_shell_input_runtime_restarts_total"@ + " "@ + text::dec(c.runtime_restarts as nat));
    lemma_holds_before(t, m, "tv_shell_grab_invariant_violations_total"@ + " "@ + text::dec(c.grab_invariant_violations as nat));
    lemma_holds_behind(t, m, "tv_shell_input_runtime_up"@ + " "@ + text::dec(c.runtime_up as nat));
    lemma_ended(t, m);
    let t = t + m;
}

proof fn lemma_action_lines(c: Metrics)
    ensures
        holds(action_text(c), "tv_shell_build_total"@ + " "@ + text::dec(c.build_actions as nat)),
        holds(action_text(c), "tv_shell_restart_shell_total"@ + " "@ + text::dec(c.restart_shell_actions as nat)),
        holds(action_text(c), "tv_shell_restart_daemon_total"@ + " "@ + text::dec(c.restart_daemon_actions as nat)),
        ended(action_text(c)),
{
    lemma_kinds();
    lemma_build_actions_worded();
    text::lemma_dec_is_decimal(c.build_actions as nat);
    let m = metric_text("tv_shell_build_total"@, "/dev/build attempts via the HTTP bridge."@, "counter"@, text::dec(c.build_actions as nat));
    lemma_metric_line("tv_shell_build_total"@, "/dev/build attempts via the HTTP bridge."@, "counter"@, text::dec(c.build_actions as nat));
    let t = m;
    lemma_restart_shell_actions_worded();
    text::lemma_dec_is_decimal(c.restart_shell_actions as nat);
    let m = metric_text("tv_shell_restart_shell_total"@, "/dev/restart-shell attempts via the HTTP bridge."@, "counter"@, text::dec(c.restart_shell_actions as nat));
    lemma_metric_line("tv_shell_restart_shell_total"@, "/dev/restart-shell attempts via the HTTP bridge."@, "counter"@, text::dec(c.restart_shell_actions as nat));
    lemma_holds_before(t, m, "tv_shell_build_total"@ + " "@ + text::dec(c.build_actions as nat));
    lemma_holds_behind(t, m, "tv_shell_restart_shell_total"@ + " "@ + text::dec(c.restart_shell_actions as nat));
    lemma_ended(t, m);
    let t = t + m;
    lemma_restart_daemon_actions_worded();
    text::lemma_dec_is_decimal(c.restart_daemon_actions as nat);
    let m = metric_text("tv_shell_restart_daemon_total"@, "/dev/restart-daemon (re-exec) requests via the HTTP bridge."@, "counter"@, text::dec(c.restart_daemon_actions as nat));
    lemma_metric_line("tv_shell_restart_daemon_total"@, "/dev/restart-daemon (re-exec) requests via the HTTP bridge."@, "counter"@, text::dec(c.restart_daemon_actions as nat));
    lemma_holds_before(t, m, "tv_shell_build_total"@ + " "@ + text::dec(c.build_actions as nat));
    lemma_holds_before(t, m, "tv_shell_restart_shell_total"@ + " "@ + text::dec(c.restart_shell_actions as nat));
    lemma_holds_behind(t, m, "tv_shell_restart_daemon_total"@ + " "@ + text::dec(c.restart_daemon_actions as nat));
    lemma_ended(t, m);
    let t = t + m;
}

proof fn lemma_shell_lines(c: Metrics)
    ensures
        holds(shell_text(c), "tv_shell_quickshell_multi_instance_total"@ + " "@ + text::dec(c.quickshell_multi_instance as nat)),
        holds(shell_text(c), "tv_shell_quickshell_warnings_total"@ + " "@ + text::dec(c.quickshell_warnings as nat)),
        ended(shell_text(c)),
{
    lemma_kinds();
    lemma_quickshell_multi_instance_worded();
    text::lemma_dec_is_decimal(c.quickshell_multi_instance as nat);
    let m = metric_text("tv_shell_quickshell_multi_instance_total"@, "Times a shell restart (HTTP /dev/restart-shell or MCP restart_shell) detected >1 quickshell process after a restart settle (#254; should stay 0)."@, "counter"@, text::dec(c.quickshell_multi_instance as nat));
    lemma_metric_line("tv_shell_quickshell_multi_instance_total"@, "Times a shell restart (HTTP /dev/restart-shell or MCP restart_shell) detected >1 quickshell process after a restart settle (#254; should stay 0)."@, "counter"@, text::dec(c.quickshell_multi_instance as nat));
    let t = m;
    lemma_quickshell_warnings_worded();
    text::lemma_dec_is_decimal(c.quickshell_warnings as nat);
    let m = metric_text("tv_shell_quickshell_warnings_total"@, "WARN/ERROR lines written by the Quickshell QML process to /tmp/qs-log.txt, sampled periodically by the daemon (#441). A healthy shell start emits a handful, not hundreds. The log is truncated on every shell start and the scanner treats a shrink or an inode change as a new file, so the counter stays monotonic across shell restarts; on daemon start it seeds from the current file WITHOUT counting its history, so a daemon restart does not replay a whole session. A missing log counts as an empty one, so on a cold boot the seed lands at zero before the shell starts and the startup burst IS counted. Warnings written and truncated away inside one scan interval are not counted."@, "counter"@, text::dec(c.quickshell_warnings as nat));
    lemma_metric_line("tv_shell_quickshell_warnings_total"@, "WARN/ERROR lines written by the Quickshell QML process to /tmp/qs-log.txt, sampled periodically by the daemon (#441). A healthy shell start emits a handful, not hundreds. The log is truncated on every shell start and the scanner treats a shrink or an inode change as a new file, so the counter stays monotonic across shell restarts; on daemon start it seeds from the current file WITHOUT counting its history, so a daemon restart does not replay a whole session. A missing log counts as an empty one, so on a cold boot the seed lands at zero before the shell starts and the startup burst IS counted. Warnings written and truncated away inside one scan interval are not counted."@, "counter"@, text::dec(c.quickshell_warnings as nat));
    lemma_holds_before(t, m, "tv_shell_quickshell_multi_instance_total"@ + " "@ + text::dec(c.quickshell_multi_instance as nat));
    lemma_holds_behind(t, m, "tv_shell_quickshell_warnings_total"@ + " "@ + text::dec(c.quickshell_warnings as nat));
    lemma_ended(t, m);
    let t = t + m;
}

proof fn lemma_deploy_lines(c: Metrics)
    ensures
        holds(deploy_text(c), "tv_shell_deploy_total"@ + labels_text(seq![("outcome"@, "ok"@)]) + " "@ + text::dec(
            c.deploy_ok as nat,
        )),
        holds(deploy_text(c), "tv_shell_deploy_total"@ + labels_text(seq![("outcome"@, "error"@)]) + " "@ + text::dec(
            c.deploy_err as nat,
        )),
        ended(deploy_text(c)),
{
    let name = "tv_shell_deploy_total"@;
    let help = "/dev/deploy attempts via the HTTP bridge, by outcome."@;
    lemma_deploy_worded();
    reveal(worded);
    reveal_strlit("outcome");
    text::lemma_dec_is_decimal(c.deploy_ok as nat);
    text::lemma_dec_is_decimal(c.deploy_err as nat);
    let head = header_text(name, help, "counter"@);
    lemma_header_ended(name, help, "counter"@);
    let ok = sample_text(name, seq![("outcome"@, "ok"@)], text::dec(c.deploy_ok as nat)) + "\n"@;
    let err = sample_text(name, seq![("outcome"@, "error"@)], text::dec(c.deploy_err as nat)) + "\n"@;
    lemma_sample_line(name, seq![("outcome"@, "ok"@)], text::dec(c.deploy_ok as nat));
    lemma_sample_line(name, seq![("outcome"@, "error"@)], text::dec(c.deploy_err as nat));
    lemma_holds_behind(head, ok, "tv_shell_deploy_total"@ + labels_text(seq![("outcome"@, "ok"@)]) + " "@ + text::dec(
            c.deploy_ok as nat,
        ));
    lemma_ended(head, ok);
    lemma_holds_before(head + ok, err, "tv_shell_deploy_total"@ + labels_text(seq![("outcome"@, "ok"@)]) + " "@ + text::dec(
            c.deploy_ok as nat,
        ));
    lemma_holds_behind(head + ok, err, "tv_shell_deploy_total"@ + labels_text(seq![("outcome"@, "error"@)]) + " "@ + text::dec(
            c.deploy_err as nat,
        ));
    lemma_ended(head + ok, err);
    assert(deploy_text(c) =~= head + ok + err);
}

proof fn lemma_counter_lines(c: Metrics, line: Seq<char>)
    requires
        holds(input_text(c), line) || holds(runtime_text(c), line) || holds(deploy_text(c), line)
            || holds(action_text(c), line) || holds(shell_text(c), line),
    ensures
        holds(counters_text(c), line),
        ended(counters_text(c)),
{
    lemma_input_lines(c);
    lemma_runtime_lines(c);
    lemma_deploy_lines(c);
    lemma_action_lines(c);
    lemma_shell_lines(c);
    let a = input_text(c);
    let b = a + runtime_text(c);
    let d = b + deploy_text(c);
    let e = d + action_text(c);
    lemma_ended(a, runtime_text(c));
    lemma_ended(b, deploy_text(c));
    lemma_ended(d, action_text(c));
    lemma_ended(e, shell_text(c));
    if holds(a, line) {
        lemma_holds_before(a, runtime_text(c), line);
    }
    if holds(runtime_text(c), line) {
        lemma_holds_behind(a, runtime_text(c), line);
    }
    if holds(b, line) {
        lemma_holds_before(b, deploy_text(c), line);
    }
    if holds(deploy_text(c), line) {
        lemma_holds_behind(b, deploy_text(c), line);
    }
    if holds(d, line) {
        lemma_holds_before(d, action_text(c), line);
    }
    if holds(action_text(c), line) {
        lemma_holds_behind(d, action_text(c), line);
    }
    if holds(e, line) {
        lemma_holds_before(e, shell_text(c), line);
    }
    if holds(shell_text(c), line) {
        lemma_holds_behind(e, shell_text(c), line);
    }
}

proof fn lemma_parts_ended(sys: Option<SysMetrics>, build: Option<BuildInfo>)
    ensures
        ended(
            match build {
                Some(b) => build_text(b),
                None => Seq::empty(),
            },
        ),
        ended(
            match sys {
                Some(m) => sys_text(m),
                None => Seq::empty(),
            },
        ),
{
    reveal(ended);
    reveal_strlit("\n");
    if let Some(m) = sys {
        lemma_sys_end(m);
    }
}

proof fn lemma_exposed(
    c: Metrics,
    sys: Option<SysMetrics>,
    build: Option<BuildInfo>,
    line: Seq<char>,
)
    requires
        holds(input_text(c), line) || holds(runtime_text(c), line) || holds(deploy_text(c), line)
            || holds(action_text(c), line) || holds(shell_text(c), line),
    ensures
        text::lines_of(exposition(c, sys, build)).contains(line),
{
    lemma_counter_lines(c, line);
    lemma_parts_ended(sys, build);
    let first = match build {
        Some(b) => build_text(b),
        None => Seq::empty(),
    };
    let last = match sys {
        Some(m) => sys_text(m),
        None => Seq::empty(),
    };
    lemma_holds_behind(first, counters_text(c), line);
    lemma_holds_before(first + counters_text(c), last, line);
    reveal(holds);
}

/// Every counter is exposed under its own name with its own value, whatever else is.
pub proof fn law_every_counter_is_exposed(
    c: Metrics,
    sys: Option<SysMetrics>,
    build: Option<BuildInfo>,
)
    ensures
        ({
            let lines = text::lines_of(exposition(c, sys, build));
            let says = |name: Seq<char>, n: u64|
                lines.contains(name + " "@ + text::dec(n as nat));
            &&& says("tv_shell_input_events_total"@, c.input_events)
            &&& says("tv_shell_intents_emitted_total"@, c.intents_emitted)
            &&& says("tv_shell_transitions_total"@, c.transitions)
            &&& says("tv_shell_pad_joins_total"@, c.pad_joins)
            &&& says("tv_shell_pad_leaves_total"@, c.pad_leaves)
            &&& says("tv_shell_shell_restarts_total"@, c.shell_restarts)
            &&& says("tv_shell_input_runtime_restarts_total"@, c.runtime_restarts)
            &&& says("tv_shell_grab_invariant_violations_total"@, c.grab_invariant_violations)
            &&& says("tv_shell_input_runtime_up"@, c.runtime_up)
            &&& says("tv_shell_build_total"@, c.build_actions)
            &&& says("tv_shell_restart_shell_total"@, c.restart_shell_actions)
            &&& says("tv_shell_restart_daemon_total"@, c.restart_daemon_actions)
            &&& says("tv_shell_quickshell_multi_instance_total"@, c.quickshell_multi_instance)
            &&& says("tv_shell_quickshell_warnings_total"@, c.quickshell_warnings)
            &&& lines.contains("tv_shell_deploy_total"@ + labels_text(seq![("outcome"@, "ok"@)]) + " "@ + text::dec(
            c.deploy_ok as nat,
        ))
            &&& lines.contains("tv_shell_deploy_total"@ + labels_text(seq![("outcome"@, "error"@)]) + " "@ + text::dec(
            c.deploy_err as nat,
        ))
        }),
{
    lemma_input_lines(c);
    lemma_runtime_lines(c);
    lemma_deploy_lines(c);
    lemma_action_lines(c);
    lemma_shell_lines(c);
    lemma_exposed(c, sys, build, "tv_shell_input_events_total"@ + " "@ + text::dec(c.input_events as nat));
    lemma_exposed(c, sys, build, "tv_shell_intents_emitted_total"@ + " "@ + text::dec(c.intents_emitted as nat));
    lemma_exposed(c, sys, build, "tv_shell_transitions_total"@ + " "@ + text::dec(c.transitions as nat));
    lemma_exposed(c, sys, build, "tv_shell_pad_joins_total"@ + " "@ + text::dec(c.pad_joins as nat));
    lemma_exposed(c, sys, build, "tv_shell_pad_leaves_total"@ + " "@ + text::dec(c.pad_leaves as nat));
    lemma_exposed(c, sys, build, "tv_shell_shell_restarts_total"@ + " "@ + text::dec(c.shell_restarts as nat));
    lemma_exposed(c, sys, build, "tv_shell_input_runtime_restarts_total"@ + " "@ + text::dec(c.runtime_restarts as nat));
    lemma_exposed(c, sys, build, "tv_shell_grab_invariant_violations_total"@ + " "@ + text::dec(c.grab_invariant_violations as nat));
    lemma_exposed(c, sys, build, "tv_shell_input_runtime_up"@ + " "@ + text::dec(c.runtime_up as nat));
    lemma_exposed(c, sys, build, "tv_shell_build_total"@ + " "@ + text::dec(c.build_actions as nat));
    lemma_exposed(c, sys, build, "tv_shell_restart_shell_total"@ + " "@ + text::dec(c.restart_shell_actions as nat));
    lemma_exposed(c, sys, build, "tv_shell_restart_daemon_total"@ + " "@ + text::dec(c.restart_daemon_actions as nat));
    lemma_exposed(c, sys, build, "tv_shell_quickshell_multi_instance_total"@ + " "@ + text::dec(c.quickshell_multi_instance as nat));
    lemma_exposed(c, sys, build, "tv_shell_quickshell_warnings_total"@ + " "@ + text::dec(c.quickshell_warnings as nat));
    lemma_exposed(c, sys, build, "tv_shell_deploy_total"@ + labels_text(seq![("outcome"@, "ok"@)]) + " "@ + text::dec(
            c.deploy_ok as nat,
        ));
    lemma_exposed(c, sys, build, "tv_shell_deploy_total"@ + labels_text(seq![("outcome"@, "error"@)]) + " "@ + text::dec(
            c.deploy_err as nat,
        ));
}

/// A label stands between brackets, its value between quotes.
pub proof fn law_labels_are_quoted(key: Seq<char>, value: Seq<char>)
    ensures
        labels_text(seq![(key, value)]) == "{"@ + (key + "=\""@ + label_value(value) + "\""@) + "}"@,
        labels_text(Seq::empty()).len() == 0,
{
    let labels = seq![(key, value)];
    let parts = Seq::new(labels.len(), |i: int| label_text(labels[i]));
    assert(parts.len() == 1 && parts[0] == label_text((key, value)));
}

/// The load is exposed under its own names with its own values, and every sensor with its
/// label and its reading.
pub proof fn law_load_is_exposed(c: Metrics, m: SysMetrics, build: Option<BuildInfo>, k: int)
    requires
        m.wf(),
    ensures
        ({
            let lines = text::lines_of(exposition(c, Some(m), build));
            &&& lines.contains("tv_shell_cpu_percent"@ + " "@ + m.cpu_pct@)
            &&& lines.contains("tv_shell_mem_used_bytes"@ + " "@ + text::dec(m.mem_used as nat))
            &&& lines.contains("tv_shell_mem_total_bytes"@ + " "@ + text::dec(m.mem_total as nat))
            &&& lines.contains("tv_shell_load1"@ + " "@ + m.load1@)
            &&& 0 <= k < m.temps@.len() ==> lines.contains(
                "tv_shell_temperature_celsius"@ + labels_text(
                    seq![("sensor"@, m.temps@[k].label@)],
                ) + " "@ + m.temps@[k].celsius@,
            )
        }),
{
    lemma_sys_lines(m);
    lemma_load_exposed(c, m, build, "tv_shell_cpu_percent"@ + " "@ + m.cpu_pct@);
    lemma_load_exposed(c, m, build, "tv_shell_mem_used_bytes"@ + " "@ + text::dec(m.mem_used as nat));
    lemma_load_exposed(c, m, build, "tv_shell_mem_total_bytes"@ + " "@ + text::dec(m.mem_total as nat));
    lemma_load_exposed(c, m, build, "tv_shell_load1"@ + " "@ + m.load1@);
    if 0 <= k < m.temps@.len() {
        lemma_sensor_exposed(m, k);
        lemma_load_exposed(c, m, build, "tv_shell_temperature_celsius"@ + labels_text(seq![("sensor"@, m.temps@[k].label@)])
            + " "@ + m.temps@[k].celsius@);
    }
}

proof fn lemma_load_exposed(c: Metrics, m: SysMetrics, build: Option<BuildInfo>, line: Seq<char>)
    requires
        holds(sys_text(m), line),
    ensures
        text::lines_of(exposition(c, Some(m), build)).contains(line),
{
    lemma_parts_ended(None, build);
    lemma_input_lines(c);
    lemma_counter_lines(c, "tv_shell_input_events_total"@ + " "@ + text::dec(c.input_events as nat));
    let first = match build {
        Some(b) => build_text(b),
        None => Seq::empty(),
    };
    lemma_ended(first, counters_text(c));
    lemma_holds_behind(first + counters_text(c), sys_text(m), line);
    reveal(holds);
}

/// The part of the load that does not depend on sensors.
spec fn load_text(m: SysMetrics) -> Seq<char> {
    metric_text(
        "tv_shell_cpu_percent"@,
        "Aggregate CPU utilisation 0..=100 (convenience; prefer node_exporter)."@,
        "gauge"@,
        m.cpu_pct@,
    ) + metric_text(
        "tv_shell_mem_used_bytes"@,
        "Used memory in bytes (convenience; prefer node_exporter)."@,
        "gauge"@,
        text::dec(m.mem_used as nat),
    ) + metric_text(
        "tv_shell_mem_total_bytes"@,
        "Total memory in bytes (convenience; prefer node_exporter)."@,
        "gauge"@,
        text::dec(m.mem_total as nat),
    ) + metric_text(
        "tv_shell_load1"@,
        "1-minute load average (convenience; prefer node_exporter)."@,
        "gauge"@,
        m.load1@,
    )
}

proof fn lemma_load_lines(m: SysMetrics)
    requires
        m.wf(),
    ensures
        holds(load_text(m), "tv_shell_cpu_percent"@ + " "@ + m.cpu_pct@),
        holds(load_text(m), "tv_shell_mem_used_bytes"@ + " "@ + text::dec(m.mem_used as nat)),
        holds(load_text(m), "tv_shell_mem_total_bytes"@ + " "@ + text::dec(m.mem_total as nat)),
        holds(load_text(m), "tv_shell_load1"@ + " "@ + m.load1@),
        ended(load_text(m)),
{
    lemma_kinds();
    text::lemma_dec_is_decimal(m.mem_used as nat);
    text::lemma_dec_is_decimal(m.mem_total as nat);
    lemma_cpu_worded();
    let p = metric_text("tv_shell_cpu_percent"@, "Aggregate CPU utilisation 0..=100 (convenience; prefer node_exporter)."@, "gauge"@, m.cpu_pct@);
    lemma_metric_line("tv_shell_cpu_percent"@, "Aggregate CPU utilisation 0..=100 (convenience; prefer node_exporter)."@, "gauge"@, m.cpu_pct@);
    let t = p;
    lemma_mem_used_worded();
    let p = metric_text("tv_shell_mem_used_bytes"@, "Used memory in bytes (convenience; prefer node_exporter)."@, "gauge"@, text::dec(m.mem_used as nat));
    lemma_metric_line("tv_shell_mem_used_bytes"@, "Used memory in bytes (convenience; prefer node_exporter)."@, "gauge"@, text::dec(m.mem_used as nat));
    lemma_holds_before(t, p, "tv_shell_cpu_percent"@ + " "@ + m.cpu_pct@);
    lemma_holds_behind(t, p, "tv_shell_mem_used_bytes"@ + " "@ + text::dec(m.mem_used as nat));
    lemma_ended(t, p);
    let t = t + p;
    lemma_mem_total_worded();
    let p = metric_text("tv_shell_mem_total_bytes"@, "Total memory in bytes (convenience; prefer node_exporter)."@, "gauge"@, text::dec(m.mem_total as nat));
    lemma_metric_line("tv_shell_mem_total_bytes"@, "Total memory in bytes (convenience; prefer node_exporter)."@, "gauge"@, text::dec(m.mem_total as nat));
    lemma_holds_before(t, p, "tv_shell_cpu_percent"@ + " "@ + m.cpu_pct@);
    lemma_holds_before(t, p, "tv_shell_mem_used_bytes"@ + " "@ + text::dec(m.mem_used as nat));
    lemma_holds_behind(t, p, "tv_shell_mem_total_bytes"@ + " "@ + text::dec(m.mem_total as nat));
    lemma_ended(t, p);
    let t = t + p;
    lemma_load_worded();
    let p = metric_text("tv_shell_load1"@, "1-minute load average (convenience; prefer node_exporter)."@, "gauge"@, m.load1@);
    lemma_metric_line("tv_shell_load1"@, "1-minute load average (convenience; prefer node_exporter)."@, "gauge"@, m.load1@);
    lemma_holds_before(t, p, "tv_shell_cpu_percent"@ + " "@ + m.cpu_pct@);
    lemma_holds_before(t, p, "tv_shell_mem_used_bytes"@ + " "@ + text::dec(m.mem_used as nat));
    lemma_holds_before(t, p, "tv_shell_mem_total_bytes"@ + " "@ + text::dec(m.mem_total as nat));
    lemma_holds_behind(t, p, "tv_shell_load1"@ + " "@ + m.load1@);
    lemma_ended(t, p);
    let t = t + p;
}

proof fn lemma_sys_lines(m: SysMetrics)
    requires
        m.wf(),
    ensures
        holds(sys_text(m), "tv_shell_cpu_percent"@ + " "@ + m.cpu_pct@),
        holds(sys_text(m), "tv_shell_mem_used_bytes"@ + " "@ + text::dec(m.mem_used as nat)),
        holds(sys_text(m), "tv_shell_mem_total_bytes"@ + " "@ + text::dec(m.mem_total as nat)),
        holds(sys_text(m), "tv_shell_load1"@ + " "@ + m.load1@),
{
    lemma_load_lines(m);
    if m.temps@.len() > 0 {
        let head = header_text(
            "tv_shell_temperature_celsius"@,
            "Hardware temperature sensor reading in degrees Celsius (convenience; prefer node_exporter)."@,
            "gauge"@,
        );
        lemma_header_ended(
            "tv_shell_temperature_celsius"@,
            "Hardware temperature sensor reading in degrees Celsius (convenience; prefer node_exporter)."@,
            "gauge"@,
        );
        lemma_sensor_line(m.temps@, 0);
        let t = load_text(m) + head;
        lemma_holds_before(load_text(m), head, "tv_shell_cpu_percent"@ + " "@ + m.cpu_pct@);
        lemma_holds_before(t, temps_text(m.temps@), "tv_shell_cpu_percent"@ + " "@ + m.cpu_pct@);
        lemma_holds_before(load_text(m), head, "tv_shell_mem_used_bytes"@ + " "@ + text::dec(m.mem_used as nat));
        lemma_holds_before(t, temps_text(m.temps@), "tv_shell_mem_used_bytes"@ + " "@ + text::dec(m.mem_used as nat));
        lemma_holds_before(load_text(m), head, "tv_shell_mem_total_bytes"@ + " "@ + text::dec(m.mem_total as nat));
        lemma_holds_before(t, temps_text(m.temps@), "tv_shell_mem_total_bytes"@ + " "@ + text::dec(m.mem_total as nat));
        lemma_holds_before(load_text(m), head, "tv_shell_load1"@ + " "@ + m.load1@);
        lemma_holds_before(t, temps_text(m.temps@), "tv_shell_load1"@ + " "@ + m.load1@);
    }
}

proof fn lemma_sensor_exposed(m: SysMetrics, k: int)
    requires
        m.wf(),
        0 <= k < m.temps@.len(),
    ensures
        holds(sys_text(m), "tv_shell_temperature_celsius"@ + labels_text(seq![("sensor"@, m.temps@[k].label@)])
            + " "@ + m.temps@[k].celsius@),
{
    lemma_load_lines(m);
    lemma_sensor_line(m.temps@, k);
    let head = header_text(
            "tv_shell_temperature_celsius"@,
            "Hardware temperature sensor reading in degrees Celsius (convenience; prefer node_exporter)."@,
            "gauge"@,
        );
    lemma_header_ended(
        "tv_shell_temperature_celsius"@,
        "Hardware temperature sensor reading in degrees Celsius (convenience; prefer node_exporter)."@,
        "gauge"@,
    );
    lemma_ended(load_text(m), head);
    lemma_holds_behind(load_text(m) + head, temps_text(m.temps@), "tv_shell_temperature_celsius"@ + labels_text(seq![("sensor"@, m.temps@[k].label@)])
            + " "@ + m.temps@[k].celsius@);
}

proof fn lemma_sensor_line(temps: Seq<TempEntry>, k: int)
    requires
        forall|i: int| 0 <= i < temps.len() ==> (#[trigger] temps[i]).wf(),
        0 <= k < temps.len(),
    ensures
        holds(
            temps_text(temps),
            "tv_shell_temperature_celsius"@ + labels_text(seq![("sensor"@, temps[k].label@)]) + " "@
                + temps[k].celsius@,
        ),
        ended(temps_text(temps)),
    decreases temps.len(),
{
    let rest = temps.drop_last();
    let t = temps.last();
    let name = "tv_shell_temperature_celsius"@;
    let line = name + labels_text(seq![("sensor"@, temps[k].label@)]) + " "@ + temps[k].celsius@;
    assert(temps[temps.len() - 1].wf());
    lemma_temperature_worded();
    reveal(worded);
    reveal_strlit("sensor");
    lemma_sample_line(name, seq![("sensor"@, t.label@)], t.celsius@);
    let sample = sample_text(name, seq![("sensor"@, t.label@)], t.celsius@) + "\n"@;
    assert(temps_text(temps) == temps_text(rest) + sample);
    assert forall|i: int| 0 <= i < rest.len() implies (#[trigger] rest[i]).wf() by {
        assert(rest[i] == temps[i]);
    }
    if rest.len() > 0 {
        lemma_sensor_line(rest, 0);
    } else {
        reveal(ended);
    }
    assert(ended(temps_text(rest)));
    if k < rest.len() {
        assert(rest[k] == temps[k]);
        lemma_sensor_line(rest, k);
        lemma_holds_before(temps_text(rest), sample, line);
    } else {
        lemma_holds_behind(temps_text(rest), sample, line);
    }
    lemma_ended(temps_text(rest), sample);
}

/// A counter goes up by one, and starts over at the end of its range.
pub proof fn law_counters_go_up_by_one(n: u64)
    ensures
        n < u64::MAX ==> bumped(n) == n + 1,
        n == u64::MAX ==> bumped(n) == 0,
{
}

/// What is counted of a log is each of its lines that holds `warn` or `error` in any case,
/// once.
pub proof fn law_warning_lines_are_counted(lines: Seq<Seq<char>>)
    ensures
        warnings(lines) == lines.filter(
            |l: Seq<char>|
                text::has_text(l.map_values(|c: char| text::lower(c)), "warn"@) || text::has_text(
                    l.map_values(|c: char| text::lower(c)),
                    "error"@,
                ),
        ).len(),
    decreases lines.len(),
{
    reveal(Seq::<Seq<char>>::filter);
    if lines.len() > 0 {
        law_warning_lines_are_counted(lines.drop_last());
    }
}

/// A log that is another file than before, because it shrank or has another inode, counts
/// in full; one that grew counts what was appended.
pub proof fn law_fresh_logs_count_in_full(
    state: ScanState,
    len: u64,
    ino: Option<u64>,
    count: u64,
)
    requires
        state.seeded,
    ensures
        len < state.last_len ==> new_warnings(state, len, ino, count) == count,
        ino is Some && state.last_ino is Some && ino->0 != state.last_ino->0 ==> new_warnings(
            state,
            len,
            ino,
            count,
        ) == count,
        len >= state.last_len && (ino is None || state.last_ino is None || ino->0
            == state.last_ino->0) && count >= state.last_count ==> new_warnings(
            state,
            len,
            ino,
            count,
        ) == count - state.last_count,
        seen(len, ino, count).seeded,
        seen(len, ino, count).last_len == len,
        seen(len, ino, count).last_ino == ino,
        seen(len, ino, count).last_count == count,
{
}

/// The labels of a revision, spelled out.
spec fn revision_labels(b: BuildInfo) -> Seq<char> {
    "{"@ + ("sha"@ + "=\""@ + label_value(b.sha@) + "\""@) + ","@ + ("branch"@ + "=\""@ + label_value(
        b.branch@,
    ) + "\""@) + ","@ + ("version"@ + "=\""@ + label_value(b.version@) + "\""@) + "}"@
}

proof fn lemma_revision_labels(b: BuildInfo)
    ensures
        labels_text(build_labels(b)) == revision_labels(b),
{
    let l = build_labels(b);
    let parts = Seq::new(l.len(), |i: int| label_text(l[i]));
    assert(parts =~= seq![label_text(l[0]), label_text(l[1]), label_text(l[2])]);
    reveal_with_fuel(text::joined, 3);
    assert(parts.drop_last() =~= seq![label_text(l[0]), label_text(l[1])]);
    assert(parts.drop_last().drop_last() =~= seq![label_text(l[0])]);
    let labels = "{"@ + label_text(l[0]) + ","@ + label_text(l[1]) + ","@ + label_text(l[2]) + "}"@;
    assert(labels_text(l) =~= labels);
}

proof fn lemma_revision_line(b: BuildInfo)
    ensures
        holds(
            build_text(b),
            "tv_shell_build_info"@ + labels_text(build_labels(b)) + " "@ + "1"@,
        ),
{
    let name = "tv_shell_build_info"@;
    let help =
        "Currently deployed tv-shell revision (value is always 1; identity is in the labels)."@;
    let l = build_labels(b);
    lemma_build_worded();
    reveal(worded);
    reveal_strlit("sha");
    reveal_strlit("branch");
    reveal_strlit("version");
    reveal_strlit("1");
    assert("1"@ =~= text::dec(1)) by {
        reveal_with_fuel(text::dec, 2);
    }
    text::lemma_dec_is_decimal(1);
    lemma_sample_line(name, l, "1"@);
    lemma_header_ended(name, help, "gauge"@);
    let head = header_text(name, help, "gauge"@);
    let sample = sample_text(name, l, "1"@) + "\n"@;
    lemma_holds_behind(head, sample, name + labels_text(l) + " "@ + "1"@);
    assert(build_text(b) =~= head + sample);
}

/// The revision that runs is exposed with its labels, each under its own name, as a metric that
/// is always one.
pub proof fn law_revision_is_exposed(c: Metrics, sys: Option<SysMetrics>, b: BuildInfo)
    ensures
        text::lines_of(exposition(c, sys, Some(b))).contains(
            "tv_shell_build_info"@ + ("{"@ + ("sha"@ + "=\""@ + label_value(b.sha@) + "\""@) + ","@
                + ("branch"@ + "=\""@ + label_value(b.branch@) + "\""@) + ","@ + ("version"@ + "=\""@
                + label_value(b.version@) + "\""@) + "}"@) + " "@ + "1"@,
        ),
{
    lemma_revision_labels(b);
    lemma_revision_line(b);
    let line = "tv_shell_build_info"@ + labels_text(build_labels(b)) + " "@ + "1"@;
    lemma_parts_ended(sys, Some(b));
    lemma_input_lines(c);
    lemma_counter_lines(c, "tv_shell_input_events_total"@ + " "@ + text::dec(c.input_events as nat));
    let last = match sys {
        Some(m) => sys_text(m),
        None => Seq::empty(),
    };
    lemma_holds_before(build_text(b), counters_text(c), line);
    lemma_holds_before(build_text(b) + counters_text(c), last, line);
    reveal(holds);
}

/// A metric is described by two lines, what it is and of which kind, before its value.
pub proof fn law_metrics_are_described(name: Seq<char>, help: Seq<char>, kind: Seq<char>, n: u64)
    ensures
        header_text(name, help, kind) == "# HELP "@ + name + " "@ + help + "\n"@ + "# TYPE "@ + name
            + " "@ + kind + "\n"@,
        counter_text(name, help, n) == header_text(name, help, "counter"@) + (name + " "@
            + text::dec(n as nat) + "\n"@),
{
    reveal_strlit("\n# TYPE ");
    reveal_strlit("\n");
    reveal_strlit("# TYPE ");
    assert("\n# TYPE "@ =~= "\n"@ + "# TYPE "@);
    assert(header_text(name, help, kind) =~= "# HELP "@ + name + " "@ + help + "\n"@ + "# TYPE "@
        + name + " "@ + kind + "\n"@);
    assert(sample_text(name, Seq::empty(), text::dec(n as nat)) =~= name + " "@ + text::dec(
        n as nat,
    ));
    assert(counter_text(name, help, n) =~= header_text(name, help, "counter"@) + (name + " "@
        + text::dec(n as nat) + "\n"@));
}

/// All counters start at zero.
pub proof fn law_counters_start_at_zero()
    ensures
        ({
            let c = zero();
            &&& c.input_events == 0 && c.intents_emitted == 0 && c.transitions == 0
            &&& c.pad_joins == 0 && c.pad_leaves == 0 && c.shell_restarts == 0
            &&& c.runtime_up == 0 && c.runtime_restarts == 0 && c.grab_invariant_violations == 0
            &&& c.deploy_ok == 0 && c.deploy_err == 0 && c.build_actions == 0
            &&& c.restart_shell_actions == 0 && c.restart_daemon_actions == 0
            &&& c.quickshell_multi_instance == 0 && c.quickshell_warnings == 0
        }),
{
}

} // verus!
