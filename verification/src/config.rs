//! The parts of the `cmux.json` configuration that are plain choices and
//! switches, and how user shortcuts combine with the defaults.

use vstd::prelude::*;
use crate::shortcuts::{default_bindings, default_shortcuts, ShortcutMap};

verus! {

/// Where a user-defined action's command runs.
#[derive(Debug, Clone, Copy, PartialEq, Eq, Structural)]
pub enum ActionTarget {
    /// A new tab (the default).
    NewTab,
    /// The focused pane.
    CurrentPane,
}

impl Default for ActionTarget {
    fn default() -> (t: ActionTarget)
        ensures
            t == ActionTarget::NewTab,
    {
        ActionTarget::NewTab
    }
}

/// A user-defined command-palette / CLI action.
#[derive(Debug, Clone, PartialEq, Eq)]
pub struct ActionDef {
    /// Shell command line to run in the target pane.
    pub command: String,
    /// Label shown in the command palette (the action id when absent).
    pub label: Option<String>,
    /// Where the command runs.
    pub target: ActionTarget,
}

#[derive(Debug, Clone, Copy, PartialEq, Eq, Structural)]
pub enum Theme {
    System,
    Light,
    Dark,
}

#[derive(Debug, Clone, Copy, PartialEq, Eq, Structural)]
pub enum CursorStyle {
    Block,
    Bar,
    Underline,
}

#[derive(Debug, Clone, Copy, PartialEq, Eq, Structural)]
pub enum SidebarPosition {
    Left,
    Right,
}

/// Notification switches.
#[derive(Debug, Clone, Copy, PartialEq, Eq, Structural)]
pub struct Notifications {
    pub enabled: bool,
    /// Treat a terminal bell as an attention signal.
    pub ring_on_bell: bool,
    pub sound: bool,
}

impl Default for Notifications {
    /// Enabled, ringing on bell, silent.
    fn default() -> (n: Notifications)
        ensures
            n == (Notifications { enabled: true, ring_on_bell: true, sound: false }),
    {
        Notifications { enabled: true, ring_on_bell: true, sound: false }
    }
}

/// `m` with each `(action, chord)` of `user` bound in order; entries whose
/// value is not text are skipped.
pub open spec fn merged(m: Map<Seq<char>, Seq<char>>, user: Seq<(Seq<char>, Option<Seq<char>>)>) -> Map<
    Seq<char>,
    Seq<char>,
>
    decreases user.len(),
{
    if user.len() == 0 {
        m
    } else {
        let pre = merged(m, user.drop_last());
        match user.last().1 {
            Some(c) => pre.insert(user.last().0, c),
            None => pre,
        }
    }
}

/// A user entry as text.
pub open spec fn user_entry(e: (String, Option<String>)) -> (Seq<char>, Option<Seq<char>>) {
    (
        e.0@,
        match e.1 {
            Some(c) => Some(c@),
            None => None,
        },
    )
}

/// The shortcuts a config file gives: the defaults with the user's
/// bindings (those whose value is text) laid over them, so unspecified
/// actions keep their defaults.
pub fn merge_shortcuts(user: &Vec<(String, Option<String>)>) -> (m: ShortcutMap)
    ensures
        m.wf(),
        m.map() == merged(default_bindings(), user@.map_values(|e: (String, Option<String>)| user_entry(e))),
{
    let mut m = default_shortcuts();
    let ghost u = user@.map_values(|e: (String, Option<String>)| user_entry(e));
    let mut i: usize = 0;
    while i < user.len()
        invariant
            i <= user@.len(),
            u == user@.map_values(|e: (String, Option<String>)| user_entry(e)),
            m.wf(),
            m.map() == merged(default_bindings(), u.take(i as int)),
        decreases user@.len() - i,
    {
        match &user[i].1 {
            Some(c) => {
                m.insert(user[i].0.clone(), c.clone());
            },
            None => {},
        }
        proof {
            assert(u.take(i + 1).drop_last() =~= u.take(i as int));
        }
        i = i + 1;
    }
    proof {
        assert(u.take(i as int) =~= u);
    }
    m
}

/// Merging user shortcuts keeps the default binding of every action the
/// user does not bind.
pub proof fn law_merge_keeps_unbound_defaults(
    m: Map<Seq<char>, Seq<char>>,
    user: Seq<(Seq<char>, Option<Seq<char>>)>,
    k: Seq<char>,
)
    requires
        forall|i: int| 0 <= i < user.len() ==> (#[trigger] user[i]).0 != k || user[i].1 is None,
    ensures
        merged(m, user).contains_key(k) == m.contains_key(k),
        m.contains_key(k) ==> merged(m, user)[k] == m[k],
    decreases user.len(),
{
    if user.len() > 0 {
        assert forall|i: int| 0 <= i < user.drop_last().len() implies (#[trigger] user.drop_last()[i]).0 != k
            || user.drop_last()[i].1 is None by {
            assert(user.drop_last()[i] == user[i]);
        }
        assert(user[user.len() - 1] == user.last());
        law_merge_keeps_unbound_defaults(m, user.drop_last(), k);
    }
}

/// The last text binding the user gives an action is the one that holds
/// after merging.
pub proof fn law_merge_last_user_binding_wins(
    m: Map<Seq<char>, Seq<char>>,
    user: Seq<(Seq<char>, Option<Seq<char>>)>,
    i: int,
    c: Seq<char>,
)
    requires
        0 <= i < user.len(),
        user[i].1 == Some(c),
        forall|j: int| i < j < user.len() ==> (#[trigger] user[j]).0 != user[i].0 || user[j].1 is None,
    ensures
        merged(m, user).contains_key(user[i].0),
        merged(m, user)[user[i].0] == c,
    decreases user.len(),
{
    if i < user.len() - 1 {
        let d = user.drop_last();
        assert(d[i] == user[i]);
        assert forall|j: int| i < j < d.len() implies (#[trigger] d[j]).0 != d[i].0 || d[j].1 is None by {
            assert(d[j] == user[j]);
        }
        assert(user[user.len() - 1] == user.last());
        law_merge_last_user_binding_wins(m, d, i, c);
    } else {
        assert(user[i] == user.last());
    }
}

/// The segments of a dotted config path, empty ones dropped
/// (`appearance.fontSize` is `appearance`, `fontSize`).
pub open spec fn path_segments_of(path: Seq<char>) -> Seq<Seq<char>> {
    crate::keys::split_on(path, '.').filter(|p: Seq<char>| p.len() > 0)
}

/// The segments of a dotted config path.
pub fn path_segments(path: &str) -> (v: Vec<String>)
    ensures
        v@.map_values(|s: String| s@) == path_segments_of(path@),
{
    let chars = crate::text::str_chars(path);
    let parts = crate::keys::split_at_char(chars.as_slice(), '.');
    let ghost pv = parts@.map_values(|p: Vec<char>| p@);
    let ghost keep = |p: Seq<char>| p.len() > 0;
    let mut out: Vec<String> = Vec::new();
    let mut i: usize = 0;
    while i < parts.len()
        invariant
            i <= parts@.len(),
            pv == parts@.map_values(|p: Vec<char>| p@),
            keep == (|p: Seq<char>| p.len() > 0),
            out@.map_values(|s: String| s@) == pv.take(i as int).filter(keep),
        decreases parts@.len() - i,
    {
        let ghost before = out@;
        if parts[i].len() > 0 {
            out.push(crate::text::string_from_chars(parts[i].as_slice()));
            proof {
                assert(out@.map_values(|s: String| s@) =~= before.map_values(|s: String| s@).push(pv[i as int]));
            }
        }
        proof {
            reveal(Seq::filter);
            assert(pv.take(i + 1).drop_last() =~= pv.take(i as int));
            assert(pv.take(i + 1).last() == pv[i as int]);
        }
        i = i + 1;
    }
    proof {
        assert(pv.take(i as int) =~= pv);
        assert(chars@ == path@);
    }
    out
}

} // verus!
