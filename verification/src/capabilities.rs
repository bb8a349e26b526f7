//! What a node says that it can do, and which surfaces of the panel follow.

use crate::text;
use vstd::prelude::*;

verus! {

/// Milliseconds that one attempt at the handshake may take.
pub const ATTEMPT_TIMEOUT_MS: u64 = 1_200;

/// How often the node is asked.
pub const ATTEMPTS: u64 = 4;

/// Milliseconds between two attempts.
pub const RETRY_DELAY_MS: u64 = 1_500;

/// Something that a node can do.
#[derive(Debug, Clone, PartialEq, Eq)]
pub enum Feature {
    /// HDMI-CEC.
    Cec,
    /// Gamepads.
    Controllers,
    /// The settings of the widgets.
    Widgets,
    /// The settings.
    SettingsStore,
    /// The registry of web apps.
    WebApps,
    /// A picture of what is shown.
    Screenshot,
    /// Deploying and building on the machine.
    DevDeploy,
    /// Wallpapers.
    Wallpapers,
    /// Processes.
    Processes,
    /// Updates of the system.
    SystemUpdates,
    /// The Steam library.
    SteamLibrary,
    /// Launching games.
    GameLaunch,
    /// Logs.
    Logs,
    /// Something that this panel does not know, by its name.
    Unknown(String),
}

/// The name of a feature.
pub open spec fn wire_name(f: Feature) -> Seq<char> {
    match f {
        Feature::Cec => "cec"@,
        Feature::Controllers => "controllers"@,
        Feature::Widgets => "widgets"@,
        Feature::SettingsStore => "settings_store"@,
        Feature::WebApps => "web_apps"@,
        Feature::Screenshot => "screenshot"@,
        Feature::DevDeploy => "dev_deploy"@,
        Feature::Wallpapers => "wallpapers"@,
        Feature::Processes => "processes"@,
        Feature::SystemUpdates => "system_updates"@,
        Feature::SteamLibrary => "steam_library"@,
        Feature::GameLaunch => "game_launch"@,
        Feature::Logs => "logs"@,
        Feature::Unknown(s) => s@,
    }
}

/// The known feature with this name.
pub open spec fn known_feature(name: Seq<char>) -> Option<Feature> {
    if name == "cec"@ {
        Some(Feature::Cec)
    } else if name == "controllers"@ {
        Some(Feature::Controllers)
    } else if name == "widgets"@ {
        Some(Feature::Widgets)
    } else if name == "settings_store"@ {
        Some(Feature::SettingsStore)
    } else if name == "web_apps"@ {
        Some(Feature::WebApps)
    } else if name == "screenshot"@ {
        Some(Feature::Screenshot)
    } else if name == "dev_deploy"@ {
        Some(Feature::DevDeploy)
    } else if name == "wallpapers"@ {
        Some(Feature::Wallpapers)
    } else if name == "processes"@ {
        Some(Feature::Processes)
    } else if name == "system_updates"@ {
        Some(Feature::SystemUpdates)
    } else if name == "steam_library"@ {
        Some(Feature::SteamLibrary)
    } else if name == "game_launch"@ {
        Some(Feature::GameLaunch)
    } else if name == "logs"@ {
        Some(Feature::Logs)
    } else {
        None
    }
}

impl Feature {
    /// The name of the feature.
    pub fn as_str(&self) -> (r: &str)
        ensures
            r@ == wire_name(*self),
    {
        match self {
            Feature::Cec => "cec",
            Feature::Controllers => "controllers",
            Feature::Widgets => "widgets",
            Feature::SettingsStore => "settings_store",
            Feature::WebApps => "web_apps",
            Feature::Screenshot => "screenshot",
            Feature::DevDeploy => "dev_deploy",
            Feature::Wallpapers => "wallpapers",
            Feature::Processes => "processes",
            Feature::SystemUpdates => "system_updates",
            Feature::SteamLibrary => "steam_library",
            Feature::GameLaunch => "game_launch",
            Feature::Logs => "logs",
            Feature::Unknown(s) => s.as_str(),
        }
    }
}

impl From<String> for Feature {
    fn from(name: String) -> (r: Feature) {
        let s = name.as_str();
        if text::same_text(s, "cec") {
            Feature::Cec
        } else if text::same_text(s, "controllers") {
            Feature::Controllers
        } else if text::same_text(s, "widgets") {
            Feature::Widgets
        } else if text::same_text(s, "settings_store") {
            Feature::SettingsStore
        } else if text::same_text(s, "web_apps") {
            Feature::WebApps
        } else if text::same_text(s, "screenshot") {
            Feature::Screenshot
        } else if text::same_text(s, "dev_deploy") {
            Feature::DevDeploy
        } else if text::same_text(s, "wallpapers") {
            Feature::Wallpapers
        } else if text::same_text(s, "processes") {
            Feature::Processes
        } else if text::same_text(s, "system_updates") {
            Feature::SystemUpdates
        } else if text::same_text(s, "steam_library") {
            Feature::SteamLibrary
        } else if text::same_text(s, "game_launch") {
            Feature::GameLaunch
        } else if text::same_text(s, "logs") {
            Feature::Logs
        } else {
            Feature::Unknown(name)
        }
    }
}

impl vstd::std_specs::convert::FromSpecImpl<String> for Feature {
    open spec fn obeys_from_spec() -> bool {
        true
    }

    open spec fn from_spec(name: String) -> Feature {
        match known_feature(name@) {
            Some(f) => f,
            None => Feature::Unknown(name),
        }
    }
}

/// A known feature is read back from its name.
pub proof fn law_names_read_back(f: Feature)
    requires
        !(f is Unknown),
    ensures
        known_feature(wire_name(f)) == Some(f),
{
    reveal_strlit("cec");
    reveal_strlit("controllers");
    reveal_strlit("widgets");
    reveal_strlit("settings_store");
    reveal_strlit("web_apps");
    reveal_strlit("screenshot");
    reveal_strlit("dev_deploy");
    reveal_strlit("wallpapers");
    reveal_strlit("processes");
    reveal_strlit("system_updates");
    reveal_strlit("steam_library");
    reveal_strlit("game_launch");
    reveal_strlit("logs");
    assert("cec"@[0] == 'c' && "cec"@[1] == 'e');
    assert("controllers"@[0] == 'c' && "controllers"@[1] == 'o');
    assert("widgets"@[0] == 'w' && "widgets"@[1] == 'i');
    assert("settings_store"@[0] == 's' && "settings_store"@[1] == 'e');
    assert("web_apps"@[0] == 'w' && "web_apps"@[1] == 'e');
    assert("screenshot"@[0] == 's' && "screenshot"@[1] == 'c');
    assert("dev_deploy"@[0] == 'd' && "dev_deploy"@[1] == 'e');
    assert("wallpapers"@[0] == 'w' && "wallpapers"@[1] == 'a');
    assert("processes"@[0] == 'p' && "processes"@[1] == 'r');
    assert("system_updates"@[0] == 's' && "system_updates"@[1] == 'y');
    assert("steam_library"@[0] == 's' && "steam_library"@[1] == 't');
    assert("game_launch"@[0] == 'g' && "game_launch"@[1] == 'a');
    assert("logs"@[0] == 'l' && "logs"@[1] == 'o');
}

// ---------------------------------------------------------------------------
// Sets of features
// ---------------------------------------------------------------------------

/// The place of a feature among the others; the unknown ones stand last.
pub open spec fn rank(f: Feature) -> int {
    match f {
        Feature::Cec => 0,
        Feature::Controllers => 1,
        Feature::Widgets => 2,
        Feature::SettingsStore => 3,
        Feature::WebApps => 4,
        Feature::Screenshot => 5,
        Feature::DevDeploy => 6,
        Feature::Wallpapers => 7,
        Feature::Processes => 8,
        Feature::SystemUpdates => 9,
        Feature::SteamLibrary => 10,
        Feature::GameLaunch => 11,
        Feature::Logs => 12,
        Feature::Unknown(_) => 13,
    }
}

/// A feature by its place, and by its name where it is unknown.
pub open spec fn tag(f: Feature) -> (int, Seq<char>) {
    (
        rank(f),
        match f {
            Feature::Unknown(s) => s@,
            _ => Seq::empty(),
        },
    )
}

/// What features there are.
pub open spec fn tags(features: Seq<Feature>) -> Seq<(int, Seq<char>)> {
    Seq::new(features.len(), |i: int| tag(features[i]))
}

/// Whether a feature stands before another.
pub open spec fn tag_before(a: (int, Seq<char>), b: (int, Seq<char>)) -> bool {
    a.0 < b.0 || (a.0 == b.0 && text::precedes(a.1, b.1))
}

/// A set of features, in order, with one more.
pub open spec fn with_tag(set: Seq<(int, Seq<char>)>, t: (int, Seq<char>)) -> Seq<(int, Seq<char>)>
    decreases set.len(),
{
    if set.len() == 0 {
        seq![t]
    } else if set[0] == t {
        set
    } else if tag_before(set[0], t) {
        seq![set[0]] + with_tag(set.skip(1), t)
    } else {
        seq![t] + set
    }
}

/// The set of some features: each once, in order.
pub open spec fn set_of(list: Seq<(int, Seq<char>)>) -> Seq<(int, Seq<char>)>
    decreases list.len(),
{
    if list.len() == 0 {
        Seq::empty()
    } else {
        with_tag(set_of(list.drop_last()), list.last())
    }
}

/// Whether features stand in order, each once.
pub open spec fn is_set(set: Seq<(int, Seq<char>)>) -> bool {
    forall|i: int, j: int| 0 <= i < j < set.len() ==> tag_before(#[trigger] set[i], #[trigger] set[j])
}

proof fn lemma_tag_order(a: (int, Seq<char>), b: (int, Seq<char>))
    ensures
        tag_before(a, b) ==> !tag_before(b, a) && a != b,
        a != b ==> tag_before(a, b) || tag_before(b, a),
{
    text::lemma_precedes(a.1, b.1);
}

proof fn lemma_tag_transitive(a: (int, Seq<char>), b: (int, Seq<char>), c: (int, Seq<char>))
    requires
        tag_before(a, b),
        tag_before(b, c),
    ensures
        tag_before(a, c),
{
    if a.0 == b.0 && b.0 == c.0 {
        text::lemma_precedes_transitive(a.1, b.1, c.1);
    }
}

proof fn lemma_with_tag(set: Seq<(int, Seq<char>)>, t: (int, Seq<char>))
    requires
        is_set(set),
    ensures
        is_set(with_tag(set, t)),
        forall|u: (int, Seq<char>)| #[trigger]
            with_tag(set, t).contains(u) <==> set.contains(u) || u == t,
    decreases set.len(),
{
    let out = with_tag(set, t);
    if set.len() == 0 {
        assert(out[0] == t);
    } else if set[0] == t {
    } else if tag_before(set[0], t) {
        let rest = set.skip(1);
        let tail = with_tag(rest, t);
        assert forall|i: int, j: int| 0 <= i < j < rest.len() implies tag_before(
            #[trigger] rest[i],
            #[trigger] rest[j],
        ) by {
            assert(tag_before(set[i + 1], set[j + 1]));
        }
        lemma_with_tag(rest, t);
        assert forall|i: int, j: int| 0 <= i < j < out.len() implies tag_before(
            #[trigger] out[i],
            #[trigger] out[j],
        ) by {
            assert(out[j] == tail[j - 1]);
            if i == 0 {
                assert(tail.contains(out[j]));
                if out[j] != t {
                    let k = choose|k: int| 0 <= k < rest.len() && rest[k] == out[j];
                    assert(tag_before(set[0], set[k + 1]));
                }
            } else {
                assert(out[i] == tail[i - 1]);
            }
        }
        assert forall|u: (int, Seq<char>)| #[trigger] out.contains(u) <==> set.contains(u) || u
            == t by {
            if out.contains(u) && u != set[0] {
                let k = choose|k: int| 0 <= k < out.len() && out[k] == u;
                assert(tail[k - 1] == u);
                assert(tail.contains(u));
                if u != t {
                    let m = choose|m: int| 0 <= m < rest.len() && rest[m] == u;
                    assert(set[m + 1] == u);
                }
            }
            if u == set[0] {
                assert(out[0] == u);
            } else if set.contains(u) || u == t {
                if set.contains(u) {
                    let k = choose|k: int| 0 <= k < set.len() && set[k] == u;
                    assert(rest[k - 1] == u);
                }
                assert(tail.contains(u));
                let m = choose|m: int| 0 <= m < tail.len() && tail[m] == u;
                assert(out[m + 1] == u);
            }
        }
    } else {
        lemma_tag_order(set[0], t);
        assert forall|i: int, j: int| 0 <= i < j < out.len() implies tag_before(
            #[trigger] out[i],
            #[trigger] out[j],
        ) by {
            assert(out[j] == set[j - 1]);
            if i > 0 {
                assert(out[i] == set[i - 1]);
            } else if j > 1 {
                assert(tag_before(set[0], set[j - 1]));
                lemma_tag_transitive(t, set[0], set[j - 1]);
            }
        }
        assert forall|u: (int, Seq<char>)| #[trigger] out.contains(u) <==> set.contains(u) || u
            == t by {
            if out.contains(u) && u != t {
                let k = choose|k: int| 0 <= k < out.len() && out[k] == u;
                assert(set[k - 1] == u);
            }
            if set.contains(u) {
                let k = choose|k: int| 0 <= k < set.len() && set[k] == u;
                assert(out[k + 1] == u);
            }
            assert(out[0] == t);
        }
    }
}

/// The set of a list holds what the list holds, each once, in order.
pub proof fn law_set_holds_the_list(list: Seq<(int, Seq<char>)>)
    ensures
        is_set(set_of(list)),
        forall|t: (int, Seq<char>)| #[trigger] set_of(list).contains(t) <==> list.contains(t),
    decreases list.len(),
{
    if list.len() > 0 {
        let rest = list.drop_last();
        law_set_holds_the_list(rest);
        lemma_with_tag(set_of(rest), list.last());
        assert forall|t: (int, Seq<char>)| #[trigger]
            set_of(list).contains(t) <==> list.contains(t) by {
            if rest.contains(t) {
                let i = choose|i: int| 0 <= i < rest.len() && rest[i] == t;
                assert(list[i] == t);
            }
            if list.contains(t) && t != list.last() {
                let i = choose|i: int| 0 <= i < list.len() && list[i] == t;
                assert(rest[i] == t);
            }
            assert(list[list.len() - 1] == list.last());
        }
    }
}

/// There is one way to put the same features in order.
proof fn lemma_set_unique(a: Seq<(int, Seq<char>)>, b: Seq<(int, Seq<char>)>)
    requires
        is_set(a),
        is_set(b),
        forall|t: (int, Seq<char>)| #[trigger] a.contains(t) <==> b.contains(t),
    ensures
        a == b,
    decreases a.len(),
{
    if a.len() == 0 {
        if b.len() > 0 {
            assert(b.contains(b[0]) && !a.contains(b[0]));
        }
        assert(a =~= b);
    } else {
        let x = a.last();
        assert(a.contains(x));
        let i = choose|i: int| 0 <= i < b.len() && b[i] == x;
        let y = b.last();
        assert(b.contains(y) && a.contains(y));
        let j = choose|j: int| 0 <= j < a.len() && a[j] == y;
        lemma_tag_order(x, y);
        if i < b.len() - 1 {
            assert(tag_before(b[i], b[b.len() - 1]));
        }
        if j < a.len() - 1 {
            assert(tag_before(a[j], a[a.len() - 1]));
        }
        assert(x == y);
        let c = a.drop_last();
        let d = b.drop_last();
        assert forall|t: (int, Seq<char>)| #[trigger] c.contains(t) <==> d.contains(t) by {
            if c.contains(t) {
                let k = choose|k: int| 0 <= k < c.len() && c[k] == t;
                assert(tag_before(a[k], a[a.len() - 1]));
                lemma_tag_order(t, x);
                assert(a.contains(t));
                let m = choose|m: int| 0 <= m < b.len() && b[m] == t;
                assert(d[m] == t);
            }
            if d.contains(t) {
                let k = choose|k: int| 0 <= k < d.len() && d[k] == t;
                assert(tag_before(b[k], b[b.len() - 1]));
                lemma_tag_order(t, x);
                assert(b.contains(t) && a.contains(t));
                let m = choose|m: int| 0 <= m < a.len() && a[m] == t;
                assert(c[m] == t);
            }
        }
        lemma_set_unique(c, d);
        assert(a =~= c.push(x));
        assert(b =~= d.push(x));
    }
}

fn rank_of(f: &Feature) -> (r: u8)
    ensures
        r == rank(*f),
{
    match f {
        Feature::Cec => 0,
        Feature::Controllers => 1,
        Feature::Widgets => 2,
        Feature::SettingsStore => 3,
        Feature::WebApps => 4,
        Feature::Screenshot => 5,
        Feature::DevDeploy => 6,
        Feature::Wallpapers => 7,
        Feature::Processes => 8,
        Feature::SystemUpdates => 9,
        Feature::SteamLibrary => 10,
        Feature::GameLaunch => 11,
        Feature::Logs => 12,
        Feature::Unknown(_) => 13,
    }
}

fn unknown_name(f: &Feature) -> (r: &str)
    ensures
        r@ == tag(*f).1,
{
    match f {
        Feature::Unknown(s) => s.as_str(),
        _ => {
            proof {
                reveal_strlit("");
            }
            assert(""@ =~= Seq::empty());
            ""
        },
    }
}

fn same_feature(a: &Feature, b: &Feature) -> (r: bool)
    ensures
        r == (tag(*a) == tag(*b)),
{
    rank_of(a) == rank_of(b) && text::same_text(unknown_name(a), unknown_name(b))
}

fn feature_before(a: &Feature, b: &Feature) -> (r: bool)
    ensures
        r == tag_before(tag(*a), tag(*b)),
{
    let x: u8 = rank_of(a);
    let y: u8 = rank_of(b);
    x < y || (x == y && text::is_before(unknown_name(a), unknown_name(b)))
}

fn insert_feature(set: &mut Vec<Feature>, f: Feature)
    ensures
        tags(final(set)@) == with_tag(tags(old(set)@), tag(f)),
{
    let ghost all = tags(set@);
    let ghost t = tag(f);
    let mut i: usize = 0;
    assert(all.take(0) + with_tag(all.skip(0), t) =~= with_tag(all, t)) by {
        assert(all.skip(0) =~= all);
    }
    while i < set.len() && !same_feature(&set[i], &f) && feature_before(&set[i], &f)
        invariant
            i <= set.len(),
            t == tag(f),
            all == tags(set@),
            with_tag(all, t) == all.take(i as int) + with_tag(all.skip(i as int), t),
        decreases set.len() - i,
    {
        assert(all.skip(i as int).skip(1) =~= all.skip(i + 1));
        assert(all.take(i as int) + (seq![all[i as int]] + with_tag(all.skip(i + 1), t))
            =~= all.take(i + 1) + with_tag(all.skip(i + 1), t));
        i += 1;
    }
    if i < set.len() && same_feature(&set[i], &f) {
        assert(all.take(i as int) + all.skip(i as int) =~= all);
    } else {
        set.insert(i, f);
        assert(tags(set@) =~= all.take(i as int) + (seq![t] + all.skip(i as int)));
    }
}

/// The set of some features: each once, in order.
pub fn feature_set(list: Vec<Feature>) -> (r: Vec<Feature>)
    ensures
        tags(r@) == set_of(tags(list@)),
        is_set(tags(r@)),
{
    let ghost all = tags(list@);
    let mut set: Vec<Feature> = Vec::new();
    let mut i: usize = 0;
    assert(all.take(0) =~= Seq::empty());
    assert(tags(set@) =~= Seq::empty());
    while i < list.len()
        invariant
            i <= list.len(),
            all == tags(list@),
            tags(set@) == set_of(all.take(i as int)),
        decreases list.len() - i,
    {
        let ghost next = all.take(i + 1);
        assert(next.drop_last() =~= all.take(i as int));
        assert(next.last() == tag(list@[i as int]));
        insert_feature(&mut set, copy_feature(&list[i]));
        i += 1;
    }
    assert(all.take(i as int) =~= all);
    proof {
        law_set_holds_the_list(all);
    }
    set
}

fn copy_feature(f: &Feature) -> (r: Feature)
    ensures
        tag(r) == tag(*f),
        !(f is Unknown) ==> r == *f,
{
    match f {
        Feature::Cec => Feature::Cec,
        Feature::Controllers => Feature::Controllers,
        Feature::Widgets => Feature::Widgets,
        Feature::SettingsStore => Feature::SettingsStore,
        Feature::WebApps => Feature::WebApps,
        Feature::Screenshot => Feature::Screenshot,
        Feature::DevDeploy => Feature::DevDeploy,
        Feature::Wallpapers => Feature::Wallpapers,
        Feature::Processes => Feature::Processes,
        Feature::SystemUpdates => Feature::SystemUpdates,
        Feature::SteamLibrary => Feature::SteamLibrary,
        Feature::GameLaunch => Feature::GameLaunch,
        Feature::Logs => Feature::Logs,
        Feature::Unknown(s) => Feature::Unknown(s.clone()),
    }
}

// ---------------------------------------------------------------------------
// Gates
// ---------------------------------------------------------------------------

/// What a surface of the panel needs.
#[derive(Debug, Clone, Copy, PartialEq, Eq, Structural)]
pub enum Gate {
    /// Always there: it needs no node.
    Recovery,
    /// A node answered the handshake.
    Node,
    /// HDMI-CEC.
    Cec,
    /// Gamepads.
    Controllers,
    /// The settings of the widgets.
    Widgets,
    /// The settings.
    SettingsStore,
    /// The registry of web apps.
    WebApps,
    /// A picture of what is shown.
    Screenshot,
    /// Deploying and building on the machine.
    DevDeploy,
}

/// The feature that a gate needs.
pub open spec fn needed(gate: Gate) -> Option<Feature> {
    match gate {
        Gate::Recovery => None,
        Gate::Node => None,
        Gate::Cec => Some(Feature::Cec),
        Gate::Controllers => Some(Feature::Controllers),
        Gate::Widgets => Some(Feature::Widgets),
        Gate::SettingsStore => Some(Feature::SettingsStore),
        Gate::WebApps => Some(Feature::WebApps),
        Gate::Screenshot => Some(Feature::Screenshot),
        Gate::DevDeploy => Some(Feature::DevDeploy),
    }
}

/// The name of a gate.
pub open spec fn gate_name(gate: Gate) -> Seq<char> {
    match gate {
        Gate::Recovery => "Recovery"@,
        Gate::Node => "Node"@,
        Gate::Cec => "Cec"@,
        Gate::Controllers => "Controllers"@,
        Gate::Widgets => "Widgets"@,
        Gate::SettingsStore => "SettingsStore"@,
        Gate::WebApps => "WebApps"@,
        Gate::Screenshot => "Screenshot"@,
        Gate::DevDeploy => "DevDeploy"@,
    }
}

impl Gate {
    /// All gates.
    pub const ALL: [Gate; 9] = [
        Gate::Recovery,
        Gate::Node,
        Gate::Cec,
        Gate::Controllers,
        Gate::Widgets,
        Gate::SettingsStore,
        Gate::WebApps,
        Gate::Screenshot,
        Gate::DevDeploy,
    ];

    /// Its name.
    pub fn ident(self) -> (r: &'static str)
        ensures
            r@ == gate_name(self),
    {
        match self {
            Gate::Recovery => "Recovery",
            Gate::Node => "Node",
            Gate::Cec => "Cec",
            Gate::Controllers => "Controllers",
            Gate::Widgets => "Widgets",
            Gate::SettingsStore => "SettingsStore",
            Gate::WebApps => "WebApps",
            Gate::Screenshot => "Screenshot",
            Gate::DevDeploy => "DevDeploy",
        }
    }

    /// The feature that it needs; the first two need none.
    pub fn feature(self) -> (r: Option<Feature>)
        ensures
            r == needed(self),
    {
        match self {
            Gate::Recovery => None,
            Gate::Node => None,
            Gate::Cec => Some(Feature::Cec),
            Gate::Controllers => Some(Feature::Controllers),
            Gate::Widgets => Some(Feature::Widgets),
            Gate::SettingsStore => Some(Feature::SettingsStore),
            Gate::WebApps => Some(Feature::WebApps),
            Gate::Screenshot => Some(Feature::Screenshot),
            Gate::DevDeploy => Some(Feature::DevDeploy),
        }
    }
}

/// What a node answers in the handshake.
#[derive(Debug, Clone, PartialEq, Eq)]
pub struct Capabilities {
    pub node_id: String,
    /// Each once, in order.
    pub features: Vec<Feature>,
}

/// What is known of the node. It is asked once, when the panel starts.
#[derive(Debug, Clone, PartialEq, Eq)]
pub struct CapabilitySnapshot {
    /// Whether it answered.
    pub handshake_ok: bool,
    /// Its name; empty if it did not answer.
    pub node_id: String,
    /// What it can do; nothing if it did not answer.
    pub features: Vec<Feature>,
}

impl Capabilities {
    /// The features stand in order, each once.
    pub open spec fn wf(self) -> bool {
        is_set(tags(self.features@))
    }
}

/// Whether a feature is among some.
pub open spec fn has(features: Seq<Feature>, f: Feature) -> bool {
    exists|i: int| 0 <= i < features.len() && tag(#[trigger] features[i]) == tag(f)
}

/// Whether what is behind a gate is there.
pub open spec fn open_gate(snapshot: CapabilitySnapshot, gate: Gate) -> bool {
    match needed(gate) {
        None => gate == Gate::Recovery || snapshot.handshake_ok,
        Some(f) => snapshot.handshake_ok && has(snapshot.features@, f),
    }
}

/// The names of some features.
pub open spec fn names_of(features: Seq<Feature>) -> Seq<Seq<char>> {
    Seq::new(features.len(), |i: int| wire_name(features[i]))
}

impl CapabilitySnapshot {
    /// The features stand in order, each once.
    pub open spec fn wf(self) -> bool {
        is_set(tags(self.features@))
    }

    /// A node that did not answer.
    pub fn unreachable() -> (r: CapabilitySnapshot)
        ensures
            r.wf(),
            !r.handshake_ok,
            r.node_id@.len() == 0,
            r.features@.len() == 0,
    {
        CapabilitySnapshot { handshake_ok: false, node_id: String::new(), features: Vec::new() }
    }

    /// A node that opens every gate.
    pub fn fully_capable() -> (r: CapabilitySnapshot)
        ensures
            r.wf(),
            r.handshake_ok,
            r.node_id@ == "test-node"@,
            r.features@ == seq![
                Feature::Cec,
                Feature::Controllers,
                Feature::Widgets,
                Feature::SettingsStore,
                Feature::WebApps,
                Feature::Screenshot,
                Feature::DevDeploy,
            ],
            forall|gate: Gate| open_gate(r, gate),
    {
        let features = vec![
            Feature::Cec,
            Feature::Controllers,
            Feature::Widgets,
            Feature::SettingsStore,
            Feature::WebApps,
            Feature::Screenshot,
            Feature::DevDeploy,
        ];
        let r = CapabilitySnapshot { handshake_ok: true, node_id: "test-node".to_owned(), features };
        assert(r.features@ =~= seq![
            Feature::Cec,
            Feature::Controllers,
            Feature::Widgets,
            Feature::SettingsStore,
            Feature::WebApps,
            Feature::Screenshot,
            Feature::DevDeploy,
        ]);
        assert forall|gate: Gate| open_gate(r, gate) by {
            assert(tag(r.features@[0]) == tag(Feature::Cec));
            assert(tag(r.features@[1]) == tag(Feature::Controllers));
            assert(tag(r.features@[2]) == tag(Feature::Widgets));
            assert(tag(r.features@[3]) == tag(Feature::SettingsStore));
            assert(tag(r.features@[4]) == tag(Feature::WebApps));
            assert(tag(r.features@[5]) == tag(Feature::Screenshot));
            assert(tag(r.features@[6]) == tag(Feature::DevDeploy));
        }
        r
    }

    /// Whether what is behind a gate is there.
    pub fn allows(&self, gate: Gate) -> (r: bool)
        ensures
            r == open_gate(*self, gate),
    {
        match gate.feature() {
            None => gate == Gate::Recovery || self.handshake_ok,
            Some(f) => self.handshake_ok && self.declares(&f),
        }
    }

    fn declares(&self, f: &Feature) -> (r: bool)
        ensures
            r == has(self.features@, *f),
    {
        let mut i: usize = 0;
        while i < self.features.len()
            invariant
                i <= self.features.len(),
                forall|k: int| 0 <= k < i ==> tag(#[trigger] self.features@[k]) != tag(*f),
            decreases self.features.len() - i,
        {
            if same_feature(&self.features[i], f) {
                return true;
            }
            i += 1;
        }
        false
    }

    /// The names of the features, between commas, in the order of the set.
    pub fn feature_list(&self) -> (r: String)
        ensures
            r@ == text::joined(names_of(self.features@), ","@),
    {
        let mut names: Vec<String> = Vec::new();
        let mut i: usize = 0;
        while i < self.features.len()
            invariant
                i <= self.features.len(),
                names@.len() == i,
                forall|k: int|
                    0 <= k < i ==> (#[trigger] names@[k])@ == wire_name(self.features@[k]),
            decreases self.features.len() - i,
        {
            names.push(self.features[i].as_str().to_owned());
            i += 1;
        }
        assert(text::views(names@) =~= names_of(self.features@));
        text::join(&names, ",")
    }
}

impl From<Capabilities> for CapabilitySnapshot {
    fn from(caps: Capabilities) -> (r: CapabilitySnapshot) {
        CapabilitySnapshot { handshake_ok: true, node_id: caps.node_id, features: caps.features }
    }
}

impl vstd::std_specs::convert::FromSpecImpl<Capabilities> for CapabilitySnapshot {
    open spec fn obeys_from_spec() -> bool {
        true
    }

    open spec fn from_spec(caps: Capabilities) -> CapabilitySnapshot {
        CapabilitySnapshot { handshake_ok: true, node_id: caps.node_id, features: caps.features }
    }
}

// ---------------------------------------------------------------------------
// The handshake
// ---------------------------------------------------------------------------

/// How an attempt at the handshake went.
#[derive(Debug, Clone, PartialEq, Eq)]
pub enum HandshakeReply {
    Answered(Capabilities),
    /// The node answered, with an error.
    Refused,
    /// There was no node.
    Unreachable,
    /// The node took too long.
    TimedOut,
}

/// What follows an attempt at the handshake.
#[derive(Debug, Clone, PartialEq, Eq)]
pub enum HandshakeStep {
    /// This is what is known of the node.
    Settled(CapabilitySnapshot),
    /// The node is asked again, in so many milliseconds.
    Again { attempt: u64, after_ms: u64 },
}

/// Whether a snapshot is that of a node that did not answer.
pub open spec fn is_unreachable(s: CapabilitySnapshot) -> bool {
    !s.handshake_ok && s.node_id@.len() == 0 && s.features@.len() == 0
}

/// What follows the attempt with this number, the first being 1. Only a node that
/// gave no answer is asked again, and only so often.
pub fn handshake_step(attempt: u64, reply: HandshakeReply) -> (r: HandshakeStep)
    ensures
        match reply {
            HandshakeReply::Answered(caps) => r matches HandshakeStep::Settled(s) && s.handshake_ok
                && s.node_id == caps.node_id && s.features == caps.features && (caps.wf()
                ==> s.wf()),
            HandshakeReply::Refused => r matches HandshakeStep::Settled(s) && is_unreachable(s),
            _ => if attempt < ATTEMPTS {
                r == (HandshakeStep::Again {
                    attempt: (attempt + 1) as u64,
                    after_ms: RETRY_DELAY_MS,
                })
            } else {
                r matches HandshakeStep::Settled(s) && is_unreachable(s)
            },
        },
{
    match reply {
        HandshakeReply::Answered(caps) => HandshakeStep::Settled(CapabilitySnapshot::from(caps)),
        HandshakeReply::Refused => HandshakeStep::Settled(CapabilitySnapshot::unreachable()),
        _ => if attempt < ATTEMPTS {
            HandshakeStep::Again { attempt: attempt + 1, after_ms: RETRY_DELAY_MS }
        } else {
            HandshakeStep::Settled(CapabilitySnapshot::unreachable())
        },
    }
}

/// What is known of a node after these replies to the attempts, in order. A node
/// that gives no reply beyond them is one that did not answer.
pub open spec fn settled(replies: Seq<HandshakeReply>, attempt: int) -> Option<Capabilities>
    decreases replies.len(),
{
    if replies.len() == 0 || attempt > ATTEMPTS {
        None
    } else {
        match replies[0] {
            HandshakeReply::Answered(caps) => Some(caps),
            HandshakeReply::Refused => None,
            _ => settled(replies.skip(1), attempt + 1),
        }
    }
}

/// How many replies a handshake takes that is at an attempt: those that say that
/// there is no node, and the first that says something else.
pub open spec fn replies_taken(replies: Seq<HandshakeReply>, attempt: int) -> int
    decreases replies.len(),
{
    if replies.len() == 0 || attempt > ATTEMPTS {
        0
    } else {
        match replies[0] {
            HandshakeReply::Answered(_) => 1,
            HandshakeReply::Refused => 1,
            _ => 1 + replies_taken(replies.skip(1), attempt + 1),
        }
    }
}

/// The handshake over the replies to its attempts: what is known of the node, and
/// how many of the replies it took.
pub fn handshake(replies: Vec<HandshakeReply>) -> (r: (CapabilitySnapshot, usize))
    ensures
        r.1 == replies_taken(replies@, 1),
        match settled(replies@, 1) {
            Some(caps) => r.0.handshake_ok && r.0.node_id@ == caps.node_id@ && tags(r.0.features@)
                == tags(caps.features@),
            None => is_unreachable(r.0),
        },
        (forall|i: int|
            0 <= i < replies@.len() ==> ((#[trigger] replies@[i]) matches HandshakeReply::Answered(
                caps,
            ) ==> caps.wf())) ==> r.0.wf(),
{
    let mut taken: usize = 0;
    assert(replies@.skip(0) =~= replies@);
    while taken < replies.len() && taken < 4
        invariant
            taken <= replies.len(),
            taken <= 4,
            settled(replies@, 1) == settled(replies@.skip(taken as int), 1 + taken),
            replies_taken(replies@, 1) == taken + replies_taken(
                replies@.skip(taken as int),
                1 + taken,
            ),
        decreases replies.len() - taken,
    {
        assert(replies@.skip(taken as int)[0] == replies@[taken as int]);
        assert(replies@.skip(taken as int).skip(1) =~= replies@.skip(taken + 1));
        assert(taken == 3 ==> settled(replies@.skip(4), 5) is None && replies_taken(
            replies@.skip(4),
            5,
        ) == 0);
        match handshake_step(taken as u64 + 1, copy_reply(&replies[taken])) {
            HandshakeStep::Settled(s) => {
                return (s, taken + 1);
            },
            HandshakeStep::Again { .. } => {},
        }
        taken += 1;
    }
    (CapabilitySnapshot::unreachable(), taken)
}

/// The milliseconds from the attempt with this number to the end of the handshake,
/// where the replies take `spent`: what the replies take, and the pauses before the
/// node is asked again.
pub open spec fn handshake_time(
    replies: Seq<HandshakeReply>,
    spent: Seq<nat>,
    attempt: int,
) -> nat
    decreases replies.len(),
{
    if replies.len() == 0 || attempt > ATTEMPTS {
        0
    } else {
        match replies[0] {
            HandshakeReply::Answered(_) => spent[0],
            HandshakeReply::Refused => spent[0],
            _ => spent[0] + (if attempt < ATTEMPTS {
                RETRY_DELAY_MS as nat
            } else {
                0
            }) + handshake_time(replies.skip(1), spent.skip(1), attempt + 1),
        }
    }
}

/// A handshake whose attempts keep to their time is over in that of all attempts
/// and the pauses between them, 9.3 seconds.
pub proof fn law_handshake_window(replies: Seq<HandshakeReply>, spent: Seq<nat>)
    requires
        spent.len() >= replies.len(),
        forall|i: int| 0 <= i < replies.len() ==> #[trigger] spent[i] <= ATTEMPT_TIMEOUT_MS,
    ensures
        handshake_time(replies, spent, 1) <= ATTEMPTS * ATTEMPT_TIMEOUT_MS + (ATTEMPTS - 1)
            * RETRY_DELAY_MS,
{
    lemma_handshake_time(replies, spent, 1);
}

proof fn lemma_handshake_time(replies: Seq<HandshakeReply>, spent: Seq<nat>, attempt: int)
    requires
        1 <= attempt <= ATTEMPTS + 1,
        spent.len() >= replies.len(),
        forall|i: int| 0 <= i < replies.len() ==> #[trigger] spent[i] <= ATTEMPT_TIMEOUT_MS,
    ensures
        attempt <= ATTEMPTS ==> handshake_time(replies, spent, attempt) <= (ATTEMPTS + 1 - attempt)
            * 1_200 + (ATTEMPTS - attempt) * 1_500,
        attempt > ATTEMPTS ==> handshake_time(replies, spent, attempt) == 0,
    decreases replies.len(),
{
    if replies.len() > 0 && attempt <= ATTEMPTS {
        let rest = spent.skip(1);
        assert forall|i: int| 0 <= i < replies.skip(1).len() implies #[trigger] rest[i]
            <= ATTEMPT_TIMEOUT_MS by {
            assert(rest[i] == spent[i + 1]);
        }
        lemma_handshake_time(replies.skip(1), rest, attempt + 1);
        assert(spent[0] <= 1_200);
    }
}

/// A handshake ends: it asks the node [`ATTEMPTS`] times at most, and the first
/// answer, a refusal too, is the last.
pub proof fn law_handshake_is_bounded(replies: Seq<HandshakeReply>)
    ensures
        0 <= replies_taken(replies, 1) <= ATTEMPTS,
        forall|i: int|
            0 <= i < replies_taken(replies, 1) - 1 ==> (#[trigger] replies[i] is Unreachable
                || replies[i] is TimedOut),
{
    lemma_taken(replies, 1);
}

proof fn lemma_taken(replies: Seq<HandshakeReply>, attempt: int)
    requires
        1 <= attempt <= ATTEMPTS + 1,
    ensures
        0 <= replies_taken(replies, attempt) <= ATTEMPTS + 1 - attempt,
        replies_taken(replies, attempt) <= replies.len(),
        forall|i: int|
            0 <= i < replies_taken(replies, attempt) - 1 ==> (#[trigger] replies[i] is Unreachable
                || replies[i] is TimedOut),
    decreases replies.len(),
{
    if replies.len() > 0 && attempt <= ATTEMPTS {
        let rest = replies.skip(1);
        lemma_taken(rest, attempt + 1);
        assert forall|i: int| 0 <= i < replies_taken(replies, attempt) - 1 implies (
        #[trigger] replies[i] is Unreachable || replies[i] is TimedOut) by {
            if i > 0 {
                assert(replies[i] == rest[i - 1]);
            }
        }
    }
}

fn copy_reply(reply: &HandshakeReply) -> (r: HandshakeReply)
    ensures
        match *reply {
            HandshakeReply::Answered(caps) => r matches HandshakeReply::Answered(c) && c.node_id@
                == caps.node_id@ && tags(c.features@) == tags(caps.features@),
            _ => r == *reply,
        },
{
    match reply {
        HandshakeReply::Answered(caps) => {
            let mut features: Vec<Feature> = Vec::new();
            let mut i: usize = 0;
            while i < caps.features.len()
                invariant
                    i <= caps.features.len(),
                    features@.len() == i,
                    forall|k: int|
                        0 <= k < i ==> tag(#[trigger] features@[k]) == tag(caps.features@[k]),
                decreases caps.features.len() - i,
            {
                features.push(copy_feature(&caps.features[i]));
                i += 1;
            }
            assert(tags(features@) =~= tags(caps.features@));
            HandshakeReply::Answered(Capabilities { node_id: caps.node_id.clone(), features })
        },
        HandshakeReply::Refused => HandshakeReply::Refused,
        HandshakeReply::Unreachable => HandshakeReply::Unreachable,
        HandshakeReply::TimedOut => HandshakeReply::TimedOut,
    }
}

// ---------------------------------------------------------------------------
// Navigation
// ---------------------------------------------------------------------------

/// A link of the navigation.
#[derive(Debug, Clone, Copy)]
pub struct NavItem {
    pub href: &'static str,
    pub label: &'static str,
    /// What the page calls itself.
    pub key: &'static str,
    /// What the page needs.
    pub gate: Gate,
}

/// A link of the navigation: target, label, key, gate.
pub type NavRule = (Seq<char>, Seq<char>, Seq<char>, Gate);

/// What links say.
pub open spec fn nav_rules(items: Seq<NavItem>) -> Seq<NavRule> {
    Seq::new(items.len(), |i: int| (items[i].href@, items[i].label@, items[i].key@, items[i].gate))
}

/// All links, in order.
#[verifier::opaque]
pub open spec fn all_links() -> Seq<NavRule> {
    seq![
        ("/"@, "Dashboard"@, "dashboard"@, Gate::Recovery),
        ("/processes"@, "Processes"@, "processes"@, Gate::Recovery),
        ("/settings"@, "Settings"@, "settings"@, Gate::SettingsStore),
        ("/widgets"@, "Widgets"@, "widgets"@, Gate::Widgets),
        ("/media"@, "Media"@, "media"@, Gate::Recovery),
        ("/tools"@, "Tools"@, "tools"@, Gate::Node),
        ("/controllers"@, "Controllers"@, "controllers"@, Gate::Controllers),
        ("/cec"@, "CEC"@, "cec"@, Gate::Cec),
        ("/dev"@, "Dev"@, "dev"@, Gate::Recovery),
        ("/logs"@, "Logs"@, "logs"@, Gate::Recovery),
    ]
}

/// All links, in order.
pub fn nav() -> (r: Vec<NavItem>)
    ensures
        nav_rules(r@) == all_links(),
{
    let r = vec![
        NavItem { href: "/", label: "Dashboard", key: "dashboard", gate: Gate::Recovery },
        NavItem { href: "/processes", label: "Processes", key: "processes", gate: Gate::Recovery },
        NavItem { href: "/settings", label: "Settings", key: "settings", gate: Gate::SettingsStore },
        NavItem { href: "/widgets", label: "Widgets", key: "widgets", gate: Gate::Widgets },
        NavItem { href: "/media", label: "Media", key: "media", gate: Gate::Recovery },
        NavItem { href: "/tools", label: "Tools", key: "tools", gate: Gate::Node },
        NavItem { href: "/controllers", label: "Controllers", key: "controllers", gate: Gate::Controllers },
        NavItem { href: "/cec", label: "CEC", key: "cec", gate: Gate::Cec },
        NavItem { href: "/dev", label: "Dev", key: "dev", gate: Gate::Recovery },
        NavItem { href: "/logs", label: "Logs", key: "logs", gate: Gate::Recovery },
    ];
    proof {
        reveal(all_links);
        assert(nav_rules(r@) =~= all_links());
    }
    r
}

/// The links whose gates are open, in order.
pub open spec fn open_links(links: Seq<NavRule>, caps: CapabilitySnapshot) -> Seq<NavRule> {
    links.filter(|link: NavRule| open_gate(caps, link.3))
}

/// What every page has around it.
#[derive(Debug, Clone)]
pub struct Chrome {
    /// The key of the page.
    pub active: &'static str,
    /// The links that lead somewhere.
    pub nav: Vec<NavItem>,
    /// Whether the node did not answer.
    pub recovery_mode: bool,
}

impl Chrome {
    /// What the page `active` has around it.
    pub fn new(caps: &CapabilitySnapshot, active: &'static str) -> (r: Chrome)
        ensures
            r.active@ == active@,
            nav_rules(r.nav@) == open_links(all_links(), *caps),
            r.recovery_mode == !caps.handshake_ok,
    {
        let items = nav();
        let ghost links = nav_rules(items@);
        let mut open: Vec<NavItem> = Vec::new();
        let mut i: usize = 0;
        proof {
            reveal(Seq::<NavRule>::filter);
        }
        assert(links.take(0) =~= Seq::empty());
        assert(nav_rules(open@) =~= Seq::empty());
        while i < items.len()
            invariant
                i <= items.len(),
                links == nav_rules(items@),
                nav_rules(open@) == open_links(links.take(i as int), *caps),
            decreases items.len() - i,
        {
            let item = items[i];
            let ghost next = links.take(i + 1);
            proof {
                reveal(Seq::<NavRule>::filter);
            }
            assert(next.drop_last() =~= links.take(i as int));
            assert(next.last() == links[i as int]);
            if caps.allows(item.gate) {
                let ghost before = open@;
                open.push(item);
                assert(nav_rules(open@) =~= nav_rules(before).push(links[i as int]));
            }
            i += 1;
        }
        assert(links.take(i as int) =~= links);
        Chrome { active, nav: open, recovery_mode: !caps.handshake_ok }
    }
}

// ---------------------------------------------------------------------------
// Laws
// ---------------------------------------------------------------------------

proof fn lemma_name_of_tag(a: Feature, b: Feature)
    requires
        tag(a) == tag(b),
    ensures
        wire_name(a) == wire_name(b),
{
}

/// Snapshots with the same features list them alike, however the node named them.
pub proof fn law_same_features_same_list(a: CapabilitySnapshot, b: CapabilitySnapshot)
    requires
        a.wf(),
        b.wf(),
        forall|f: Feature| #[trigger] has(a.features@, f) <==> has(b.features@, f),
    ensures
        names_of(a.features@) == names_of(b.features@),
{
    let x = tags(a.features@);
    let y = tags(b.features@);
    assert forall|t: (int, Seq<char>)| #[trigger] x.contains(t) <==> y.contains(t) by {
        if x.contains(t) {
            let i = choose|i: int| 0 <= i < x.len() && x[i] == t;
            assert(tag(a.features@[i]) == t);
            assert(has(a.features@, a.features@[i]));
            let j = choose|j: int|
                0 <= j < b.features@.len() && tag(#[trigger] b.features@[j]) == tag(a.features@[i]);
            assert(y[j] == t);
        }
        if y.contains(t) {
            let i = choose|i: int| 0 <= i < y.len() && y[i] == t;
            assert(tag(b.features@[i]) == t);
            assert(has(b.features@, b.features@[i]) && has(a.features@, b.features@[i]));
            let j = choose|j: int|
                0 <= j < a.features@.len() && tag(#[trigger] a.features@[j]) == tag(b.features@[i]);
            assert(x[j] == t);
        }
    }
    lemma_set_unique(x, y);
    assert(a.features@.len() == x.len() && b.features@.len() == y.len());
    assert forall|i: int| 0 <= i < x.len() implies wire_name(#[trigger] a.features@[i])
        == wire_name(b.features@[i]) by {
        assert(x[i] == y[i]);
        lemma_name_of_tag(a.features@[i], b.features@[i]);
    }
    assert(names_of(a.features@) =~= names_of(b.features@));
}

/// Without a handshake only what needs no node is there, whatever features were
/// noted.
pub proof fn law_no_handshake_no_node(snapshot: CapabilitySnapshot, gate: Gate)
    requires
        !snapshot.handshake_ok,
    ensures
        open_gate(snapshot, gate) <==> gate == Gate::Recovery,
{
}

/// A feature opens its own gate and no other.
pub proof fn law_feature_opens_its_gate(snapshot: CapabilitySnapshot, own: Gate, other: Gate)
    requires
        snapshot.handshake_ok,
        needed(own) is Some,
        snapshot.features@ == seq![needed(own)->Some_0],
    ensures
        open_gate(snapshot, other) <==> (other == own || needed(other) is None),
{
    assert(tag(snapshot.features@[0]) == tag(needed(own)->Some_0));
}

/// A feature that the panel does not know opens no gate.
pub proof fn law_unknown_opens_nothing(snapshot: CapabilitySnapshot, gate: Gate)
    requires
        forall|i: int| 0 <= i < snapshot.features@.len() ==> #[trigger] snapshot.features@[i] is Unknown,
        needed(gate) is Some,
    ensures
        !open_gate(snapshot, gate),
{
}

/// What a filter keeps is what is there and passes it.
pub proof fn lemma_kept<A>(all: Seq<A>, pass: spec_fn(A) -> bool, one: A)
    ensures
        all.filter(pass).contains(one) <==> all.contains(one) && pass(one),
{
    if all.contains(one) && pass(one) {
        let i = choose|i: int| 0 <= i < all.len() && all[i] == one;
        all.lemma_filter_contains(pass, i);
    }
    if all.filter(pass).contains(one) {
        all.lemma_filter_contains_rev(pass, one);
        let i = choose|i: int| 0 <= i < all.filter(pass).len() && all.filter(pass)[i] == one;
        all.lemma_filter_pred(pass, i);
    }
}

/// A shown link leads to a page whose gate is open, and every such link is shown.
pub proof fn law_links_follow_gates(links: Seq<NavRule>, caps: CapabilitySnapshot, link: NavRule)
    ensures
        open_links(links, caps).contains(link) <==> links.contains(link) && open_gate(caps, link.3),
{
    lemma_kept(links, |link: NavRule| open_gate(caps, link.3), link);
}

/// Each gate needs the feature that it is named after, and the first two need none.
pub proof fn law_gates_need_their_feature(gate: Gate)
    ensures
        needed(gate) is None <==> gate == Gate::Recovery || gate == Gate::Node,
        gate == Gate::Cec ==> needed(gate) == Some(Feature::Cec),
        gate == Gate::Controllers ==> needed(gate) == Some(Feature::Controllers),
        gate == Gate::Widgets ==> needed(gate) == Some(Feature::Widgets),
        gate == Gate::SettingsStore ==> needed(gate) == Some(Feature::SettingsStore),
        gate == Gate::WebApps ==> needed(gate) == Some(Feature::WebApps),
        gate == Gate::Screenshot ==> needed(gate) == Some(Feature::Screenshot),
        gate == Gate::DevDeploy ==> needed(gate) == Some(Feature::DevDeploy),
{
}

/// A gate is open exactly if it needs no node, or the node answered and has what it needs.
pub proof fn law_open_gates(snapshot: CapabilitySnapshot, gate: Gate, f: Feature)
    ensures
        open_gate(snapshot, Gate::Recovery),
        open_gate(snapshot, Gate::Node) <==> snapshot.handshake_ok,
        needed(gate) == Some(f) ==> (open_gate(snapshot, gate) <==> snapshot.handshake_ok
            && exists|i: int|
            0 <= i < snapshot.features@.len() && tag(#[trigger] snapshot.features@[i]) == tag(f)),
        needed(gate) == Some(f) && snapshot.handshake_ok && snapshot.features@.contains(f)
            ==> open_gate(snapshot, gate),
{
    if snapshot.features@.contains(f) {
        let i = choose|i: int| 0 <= i < snapshot.features@.len() && snapshot.features@[i] == f;
        assert(tag(snapshot.features@[i]) == tag(f));
    }
}

/// The first answer within four attempts settles what is known of the node: what it says,
/// or, if it refuses, that it can do nothing. Silence before it does not matter.
pub proof fn law_first_answer_settles(replies: Seq<HandshakeReply>, n: int, attempt: int)
    requires
        1 <= attempt,
        0 <= n < replies.len(),
        attempt + n <= 4,
        forall|i: int|
            0 <= i < n ==> (#[trigger] replies[i] is Unreachable || replies[i] is TimedOut),
    ensures
        replies[n] matches HandshakeReply::Answered(caps) ==> settled(replies, attempt) == Some(
            caps,
        ) && replies_taken(replies, attempt) == n + 1,
        replies[n] is Refused ==> settled(replies, attempt) is None && replies_taken(
            replies,
            attempt,
        ) == n + 1,
    decreases n,
{
    if n > 0 {
        assert(replies[0] is Unreachable || replies[0] is TimedOut);
        let t = replies.skip(1);
        assert forall|i: int| 0 <= i < n - 1 implies (#[trigger] t[i] is Unreachable || t[i]
            is TimedOut) by {
            assert(t[i] == replies[i + 1]);
        }
        law_first_answer_settles(t, n - 1, attempt + 1);
    }
}

/// A node that stays silent for four attempts is one that did not answer, and is not asked
/// a fifth time.
pub proof fn law_silence_is_no_answer(replies: Seq<HandshakeReply>, attempt: int)
    requires
        1 <= attempt <= 5,
        forall|i: int|
            0 <= i < replies.len() && i <= 4 - attempt ==> (#[trigger] replies[i] is Unreachable
                || replies[i] is TimedOut),
    ensures
        settled(replies, attempt) is None,
        replies.len() >= 5 - attempt ==> replies_taken(replies, attempt) == 5 - attempt,
    decreases replies.len(),
{
    if replies.len() > 0 && attempt <= 4 {
        assert(replies[0] is Unreachable || replies[0] is TimedOut);
        let t = replies.skip(1);
        assert forall|i: int| 0 <= i < t.len() && i <= 4 - (attempt + 1) implies (#[trigger] t[i]
            is Unreachable || t[i] is TimedOut) by {
            assert(t[i] == replies[i + 1]);
        }
        law_silence_is_no_answer(t, attempt + 1);
    }
}

/// A feature goes by its own name: two known features share none, and what no known feature
/// is called is kept as it was.
pub proof fn law_names_tell_features_apart(a: Feature, b: Feature, name: Seq<char>)
    ensures
        !(a is Unknown) && !(b is Unknown) && wire_name(a) == wire_name(b) ==> a == b,
        known_feature(name) matches Some(f) ==> wire_name(f) == name && !(f is Unknown),
        a matches Feature::Unknown(s) ==> wire_name(a) == s@,
{
    if !(a is Unknown) {
        law_names_read_back(a);
    }
    if !(b is Unknown) {
        law_names_read_back(b);
    }
}

/// A gate goes by its own name, and nothing is known of a node that did not answer.
pub proof fn law_gates_are_named(gate: Gate, snapshot: CapabilitySnapshot)
    ensures
        gate == Gate::Recovery ==> gate_name(gate) == "Recovery"@,
        gate == Gate::Node ==> gate_name(gate) == "Node"@,
        gate == Gate::Cec ==> gate_name(gate) == "Cec"@,
        gate == Gate::Controllers ==> gate_name(gate) == "Controllers"@,
        gate == Gate::Widgets ==> gate_name(gate) == "Widgets"@,
        gate == Gate::SettingsStore ==> gate_name(gate) == "SettingsStore"@,
        gate == Gate::WebApps ==> gate_name(gate) == "WebApps"@,
        gate == Gate::Screenshot ==> gate_name(gate) == "Screenshot"@,
        gate == Gate::DevDeploy ==> gate_name(gate) == "DevDeploy"@,
        is_unreachable(snapshot) ==> !snapshot.handshake_ok && snapshot.node_id@.len() == 0
            && snapshot.features@.len() == 0,
{
}

/// A set of features holds what it held and the feature that is added, each once and in order.
pub proof fn law_sets_hold_what_is_added(
    set: Seq<(int, Seq<char>)>,
    t: (int, Seq<char>),
    u: (int, Seq<char>),
)
    requires
        is_set(set),
    ensures
        with_tag(set, t).contains(u) <==> set.contains(u) || u == t,
        is_set(with_tag(set, t)),
        with_tag(set, t).len() == (if set.contains(t) {
            set.len()
        } else {
            set.len() + 1
        }),
    decreases set.len(),
{
    lemma_with_tag(set, t);
    if set.len() > 0 && set[0] != t && tag_before(set[0], t) {
        let rest = set.skip(1);
        assert forall|i: int, j: int| 0 <= i < j < rest.len() implies tag_before(
            #[trigger] rest[i],
            #[trigger] rest[j],
        ) by {
            assert(rest[i] == set[i + 1] && rest[j] == set[j + 1]);
        }
        law_sets_hold_what_is_added(rest, t, u);
        if set.contains(t) {
            let i = choose|i: int| 0 <= i < set.len() && set[i] == t;
            assert(rest[i - 1] == t);
        }
        if rest.contains(t) {
            let i = choose|i: int| 0 <= i < rest.len() && rest[i] == t;
            assert(set[i + 1] == t);
        }
    } else if set.len() > 0 && set[0] != t {
        if set.contains(t) {
            let i = choose|i: int| 0 <= i < set.len() && set[i] == t;
            assert(tag_before(set[0], set[i]));
        }
    } else if set.len() > 0 {
        assert(set.contains(set[0]));
    }
}

/// A feature goes by the name that nodes and panels agreed on.
pub proof fn law_features_go_by_their_name(f: Feature)
    ensures
        f is Cec ==> wire_name(f) == "cec"@,
        f is Controllers ==> wire_name(f) == "controllers"@,
        f is Widgets ==> wire_name(f) == "widgets"@,
        f is SettingsStore ==> wire_name(f) == "settings_store"@,
        f is WebApps ==> wire_name(f) == "web_apps"@,
        f is Screenshot ==> wire_name(f) == "screenshot"@,
        f is DevDeploy ==> wire_name(f) == "dev_deploy"@,
        f is Wallpapers ==> wire_name(f) == "wallpapers"@,
        f is Processes ==> wire_name(f) == "processes"@,
        f is SystemUpdates ==> wire_name(f) == "system_updates"@,
        f is SteamLibrary ==> wire_name(f) == "steam_library"@,
        f is GameLaunch ==> wire_name(f) == "game_launch"@,
        f is Logs ==> wire_name(f) == "logs"@,
{
}

/// A link leads to the path of its key, but for the first, which leads to the start, and is
/// shown where the feature of its path is.
pub proof fn law_links_lead_to_their_key(i: int)
    requires
        0 <= i < all_links().len(),
    ensures
        all_links().len() == 10,
        i == 0 ==> all_links()[i] == ("/"@, "Dashboard"@, "dashboard"@, Gate::Recovery),
        i > 0 ==> all_links()[i].0 == "/"@ + all_links()[i].2,
        all_links()[i].2 == "settings"@ ==> all_links()[i].3 == Gate::SettingsStore,
        all_links()[i].2 == "widgets"@ ==> all_links()[i].3 == Gate::Widgets,
        all_links()[i].2 == "tools"@ ==> all_links()[i].3 == Gate::Node,
        all_links()[i].2 == "controllers"@ ==> all_links()[i].3 == Gate::Controllers,
        all_links()[i].2 == "cec"@ ==> all_links()[i].3 == Gate::Cec,
        all_links()[i].2 == "processes"@ || all_links()[i].2 == "media"@ || all_links()[i].2
            == "dev"@ || all_links()[i].2 == "logs"@ ==> all_links()[i].3 == Gate::Recovery,
{
    reveal(all_links);
    reveal_strlit("/");
    reveal_strlit("/processes");
    reveal_strlit("/settings");
    reveal_strlit("/widgets");
    reveal_strlit("/media");
    reveal_strlit("/tools");
    reveal_strlit("/controllers");
    reveal_strlit("/cec");
    reveal_strlit("/dev");
    reveal_strlit("/logs");
    reveal_strlit("dashboard");
    reveal_strlit("processes");
    reveal_strlit("settings");
    reveal_strlit("widgets");
    reveal_strlit("media");
    reveal_strlit("tools");
    reveal_strlit("controllers");
    reveal_strlit("cec");
    reveal_strlit("dev");
    reveal_strlit("logs");
    assert("/processes"@ =~= "/"@ + "processes"@);
    assert("/settings"@ =~= "/"@ + "settings"@);
    assert("/widgets"@ =~= "/"@ + "widgets"@);
    assert("/media"@ =~= "/"@ + "media"@);
    assert("/tools"@ =~= "/"@ + "tools"@);
    assert("/controllers"@ =~= "/"@ + "controllers"@);
    assert("/cec"@ =~= "/"@ + "cec"@);
    assert("/dev"@ =~= "/"@ + "dev"@);
    assert("/logs"@ =~= "/"@ + "logs"@);
    assert("dashboard"@.len() == 9 && "dashboard"@[0] == 'd');
    assert("processes"@.len() == 9 && "processes"@[0] == 'p');
    assert("settings"@.len() == 8);
    assert("widgets"@.len() == 7);
    assert("media"@.len() == 5 && "media"@[0] == 'm');
    assert("tools"@.len() == 5 && "tools"@[0] == 't');
    assert("controllers"@.len() == 11);
    assert("cec"@.len() == 3 && "cec"@[0] == 'c');
    assert("dev"@.len() == 3 && "dev"@[0] == 'd');
    assert("logs"@.len() == 4);
}

} // verus!
