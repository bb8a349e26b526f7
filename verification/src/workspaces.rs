//! Which workspace an app's windows go to.
//!
//! Every window class has a workspace of its own, so two apps cannot share the
//! screen, and an app that closes and comes back returns to the workspace that
//! it had.

use crate::text;
use vstd::hash_map::StringHashMap;
use vstd::prelude::*;

verus! {

/// The workspace that is shown while no app is; it is left empty.
pub const HOME_WORKSPACE: u32 = 1;

/// The first workspace that is handed to an app.
pub const FIRST_APP_WORKSPACE: u32 = 2;

/// Sticky map from window class to workspace.
pub struct Registry {
    map: StringHashMap<u32>,
    next: u32,
}

impl View for Registry {
    type V = Map<Seq<char>, u32>;

    closed spec fn view(&self) -> Map<Seq<char>, u32> {
        self.map@
    }
}

impl Registry {
    /// The workspace that the next new class gets.
    pub closed spec fn next_free(self) -> u32 {
        self.next
    }

    /// Workspaces are handed out in order from [`FIRST_APP_WORKSPACE`] on, and,
    /// as long as the counter has not reached its end, no two classes share one.
    pub open spec fn wf(self) -> bool {
        &&& FIRST_APP_WORKSPACE <= self.next_free()
        &&& !self@.contains_key(Seq::empty())
        &&& forall|c: Seq<char>| #[trigger]
            self@.contains_key(c) ==> FIRST_APP_WORKSPACE <= self@[c] && (self@[c]
                < self.next_free() || self.next_free() == u32::MAX)
        &&& self.next_free() < u32::MAX ==> forall|c: Seq<char>, d: Seq<char>|
            #![trigger self@[c], self@[d]]
            self@.contains_key(c) && self@.contains_key(d) && c != d ==> self@[c] != self@[d]
    }

    /// A registry in which no class has a workspace.
    pub fn new() -> (r: Self)
        ensures
            r.wf(),
            r@ == Map::<Seq<char>, u32>::empty(),
            r.next_free() == FIRST_APP_WORKSPACE,
    {
        Registry { map: StringHashMap::new(), next: FIRST_APP_WORKSPACE }
    }

    /// The workspace that `class` has, if any.
    pub fn get(&self, class: &str) -> (r: Option<u32>)
        ensures
            r == (if self@.contains_key(class@) {
                Some(self@[class@])
            } else {
                None
            }),
    {
        match self.map.get(class) {
            Some(ws) => Some(*ws),
            None => None,
        }
    }

    /// The workspace of `class`, a fresh one where it has none. A window without
    /// a class gets none, and uses none up.
    pub fn assign(&mut self, class: &str) -> (r: Option<u32>)
        requires
            old(self).wf(),
        ensures
            final(self).wf(),
            class@.len() == 0 ==> r is None && *final(self) == *old(self),
            class@.len() > 0 && old(self)@.contains_key(class@) ==> r == Some(old(self)@[class@])
                && *final(self) == *old(self),
            class@.len() > 0 && !old(self)@.contains_key(class@) ==> {
                &&& r == Some(old(self).next_free())
                &&& final(self)@ == old(self)@.insert(class@, old(self).next_free())
                &&& final(self).next_free() == (if old(self).next_free() == u32::MAX {
                    u32::MAX
                } else {
                    (old(self).next_free() + 1) as u32
                })
            },
    {
        if class.is_empty() {
            return None;
        }
        if let Some(ws) = self.map.get(class) {
            return Some(*ws);
        }
        let ws = self.next;
        if self.next < u32::MAX {
            self.next = self.next + 1;
        }
        self.map.insert(class.to_owned(), ws);
        Some(ws)
    }
}

impl Default for Registry {
    fn default() -> (r: Self)
        ensures
            r.wf(),
            r@ == Map::<Seq<char>, u32>::empty(),
            r.next_free() == FIRST_APP_WORKSPACE,
    {
        Registry::new()
    }
}

/// No class is ever given the home workspace.
pub proof fn law_home_is_reserved(registry: Registry, class: Seq<char>)
    requires
        registry.wf(),
        registry@.contains_key(class),
    ensures
        registry@[class] != HOME_WORKSPACE,
        HOME_WORKSPACE == 1,
        registry@[class] >= 2,
{
}

/// Different classes have different workspaces. The counter stops at its last
/// value, which classes beyond it would share.
pub proof fn law_classes_do_not_share(registry: Registry, a: Seq<char>, b: Seq<char>)
    requires
        registry.wf(),
        registry.next_free() < u32::MAX,
        registry@.contains_key(a),
        registry@.contains_key(b),
        a != b,
    ensures
        registry@[a] != registry@[b],
{
}

/// The dispatch that parks a window on its workspace without following it
/// there.
pub fn move_command(workspace: u32, address: &str) -> (r: String)
    ensures
        r@ == "dispatch movetoworkspacesilent "@ + text::dec(workspace as nat) + ",address:"@
            + address@,
{
    let mut out = "dispatch movetoworkspacesilent ".to_owned();
    out.push_str(text::decimal(workspace as u64).as_str());
    out.push_str(",address:");
    out.push_str(address);
    out
}

/// The dispatch that puts `workspace` on screen.
pub fn switch_command(workspace: u32) -> (r: String)
    ensures
        r@ == "dispatch workspace "@ + text::dec(workspace as nat),
{
    let mut out = "dispatch workspace ".to_owned();
    out.push_str(text::decimal(workspace as u64).as_str());
    out
}

} // verus!
