//! The application engine: the topology together with the terminal emulator
//! of every terminal pane, and the decisions that control requests and
//! keyboard actions make on them. Outside work (writing to and resizing a
//! PTY, reading and writing the config file, spawning shells) is handed back
//! to the caller as a [`Step`] or a plan.

use vstd::prelude::*;
use crate::config::{ActionDef, ActionTarget, Notifications};
use crate::ids::{PaneId, WorkspaceId};
use crate::notification::{copy_entries, newest_unread, same_entry, Notification};
use crate::pane::PaneKind;
use crate::protocol::{orientation_of, summarize, ws_summary_ok, Dir, Request, Response, SplitDir, Target};
use crate::screen::fits;
use crate::split::{FocusDir, Orientation};
use crate::term::{initial_view, render_rows, spec_search, term_resized, Match, Terminal};
use crate::workspace::{
    add_tab_effect, close_pane_effect, close_tab_effect, close_workspace_effect,
    dismiss_notification_effect, equalize_active_effect, first_match, focus_adjacent_tab_effect,
    focus_dir_effect, focus_pane_effect, focus_tab_effect, focus_workspace_effect, lemma_first_match,
    lemma_first_match_at, lemma_same_panes, mark_notification_read_effect, new_workspace_effect,
    notify_effect, rename_tab_effect, rename_workspace_effect, reopen_closed_tab_effect,
    reorder_tab_effect, reorder_workspace_effect, set_browser_url_effect, split_focused_browser_effect,
    is_initial, split_focused_effect, split_pane_effect, toggle_zoom_effect, ws_pos, ws_with_tab, AppState,
    Workspace,
};

verus! {

/// Grid size of a freshly spawned pane.
pub const DEFAULT_ROWS: u16 = 24;

/// Grid size of a freshly spawned pane.
pub const DEFAULT_COLS: u16 = 80;

/// The emulator behind one terminal pane.
pub struct PaneRuntime {
    pub pane: PaneId,
    pub term: Terminal,
    /// The pane's child process has exited.
    pub exited: bool,
}

/// What the caller does to finish a request.
#[derive(Debug)]
pub enum Step {
    /// Answer with this response.
    Reply(Response),
    /// Write `bytes` to the pane's PTY, then answer `Done`, or the error
    /// "no such pane" when the write fails ([`Engine::write_reply`]).
    Write { pane: PaneId, bytes: Vec<u8> },
    /// Resize the pane's PTY to `rows` x `cols` (its grid is resized
    /// already), then answer `Done`.
    Resize { pane: PaneId, rows: u16, cols: u16 },
    /// Answer with the config value at `path` (the whole config if `None`).
    GetConfig { path: Option<String> },
    /// Set the config value at `path` to `value` and answer how that went.
    SetConfig { path: String, value: String },
    /// Look up the custom action `name` in the config and run it with
    /// [`Engine::run_action`] (answering an error when there is none).
    RunAction { name: String },
}

/// Position of the runtime of pane `p`.
pub open spec fn rt_pos(rts: Seq<PaneRuntime>, p: PaneId) -> Option<int> {
    first_match(rts, |r: PaneRuntime| r.pane == p)
}

/// The pane a request addresses: the one named, else the focused one.
pub open spec fn target_of(s: AppState, pane: Option<PaneId>) -> Option<PaneId> {
    match pane {
        Some(p) => Some(p),
        None => s.focused_of(),
    }
}

/// `s` answers with the error `m`.
pub open spec fn is_error(s: Step, m: Seq<char>) -> bool {
    s matches Step::Reply(Response::Error { message }) && message@ == m
}

/// `s` answers `Done` when `b`, else with the error `m`.
pub open spec fn done_or(b: bool, s: Step, m: Seq<char>) -> bool {
    if b {
        s == Step::Reply(Response::Done)
    } else {
        is_error(s, m)
    }
}

/// `s` answers with the new id of `r`, or with the error `m` when there is none.
pub open spec fn created_or(r: Option<u64>, s: Step, m: Seq<char>) -> bool {
    match r {
        Some(id) => s == Step::Reply(Response::Created { id }),
        None => is_error(s, m),
    }
}

/// The focus direction a wire direction names.
pub open spec fn focus_dir_of(d: Dir) -> FocusDir {
    match d {
        Dir::Left => FocusDir::Left,
        Dir::Right => FocusDir::Right,
        Dir::Up => FocusDir::Up,
        Dir::Down => FocusDir::Down,
    }
}

/// A pane id as a raw number.
pub open spec fn raw_pane(r: Option<PaneId>) -> Option<u64> {
    match r {
        Some(p) => Some(p.0),
        None => None,
    }
}

/// A tab id as a raw number.
pub open spec fn raw_tab(r: Option<crate::ids::TabId>) -> Option<u64> {
    match r {
        Some(t) => Some(t.0),
        None => None,
    }
}

/// The topology and the per-pane emulators.
pub struct Engine {
    pub state: AppState,
    /// Which terminal signals raise notifications.
    pub alerts: Notifications,
    /// One runtime per terminal pane that has a process, in attach order.
    pub runtimes: Vec<PaneRuntime>,
}

impl Engine {
    /// The runtimes, in the order they were attached.
    pub open spec fn runtime_seq(&self) -> Seq<PaneRuntime> {
        self.runtimes@
    }

    /// The topology is well formed, each pane has at most one runtime and
    /// every emulator is well formed.
    pub open spec fn wf(&self) -> bool {
        &&& self.state.panes_wf()
        &&& forall|i: int, j: int|
            0 <= i < j < self.runtime_seq().len() ==> (#[trigger] self.runtime_seq()[i]).pane
                != (#[trigger] self.runtime_seq()[j]).pane
        &&& forall|i: int| 0 <= i < self.runtime_seq().len() ==> (#[trigger] self.runtime_seq()[i]).term.wf()
    }

    /// An engine over a fresh topology of one workspace named `workspace`,
    /// with no runtimes yet.
    pub fn new(alerts: Notifications) -> (e: Engine)
        ensures
            e.wf(),
            e.runtime_seq().len() == 0,
            e.alerts == alerts,
            exists|s0: AppState, id: WorkspaceId|
                is_initial(s0) && #[trigger] new_workspace_effect(s0, e.state, "workspace"@, id),
    {
        let mut s = AppState::new();
        let ghost s0 = s;
        assert(is_initial(s0));
        let id = s.new_workspace("workspace");
        let e = Engine { state: s, alerts, runtimes: Vec::new() };
        assert(is_initial(s0) && new_workspace_effect(s0, e.state, "workspace"@, id));
        e
    }

    /// An engine over `state`, or over a fresh topology when `state` has no
    /// workspace (a restored session that was empty), with no runtimes yet.
    pub fn with_state(state: AppState, alerts: Notifications) -> (e: Engine)
        requires
            state.panes_wf(),
        ensures
            e.wf(),
            e.runtime_seq().len() == 0,
            e.alerts == alerts,
            state.ws_seq().len() > 0 ==> e.state == state,
            state.ws_seq().len() == 0 ==> exists|s0: AppState, id: WorkspaceId|
                is_initial(s0) && #[trigger] new_workspace_effect(s0, e.state, "workspace"@, id),
    {
        if state.workspace_list().len() > 0 {
            Engine { state, alerts, runtimes: Vec::new() }
        } else {
            Engine::new(alerts)
        }
    }

    fn rt_index(&self, p: PaneId) -> (r: Option<usize>)
        ensures
            match r {
                Some(i) => rt_pos(self.runtime_seq(), p) == Some(i as int),
                None => rt_pos(self.runtime_seq(), p) is None,
            },
            r matches Some(i) ==> i < self.runtime_seq().len(),
            rt_pos(self.runtime_seq(), p) matches Some(i) ==> 0 <= i < self.runtime_seq().len()
                && self.runtime_seq()[i].pane == p,
    {
        proof {
            lemma_first_match(self.runtimes@, |r: PaneRuntime| r.pane == p);
        }
        let mut i: usize = 0;
        while i < self.runtimes.len()
            invariant
                i <= self.runtimes@.len(),
                forall|j: int| 0 <= j < i ==> !(|r: PaneRuntime| r.pane == p)(#[trigger] self.runtimes@[j]),
            decreases self.runtimes@.len() - i,
        {
            if self.runtimes[i].pane == p {
                proof {
                    lemma_first_match_at(self.runtimes@, |r: PaneRuntime| r.pane == p, i as int);
                }
                return Some(i);
            }
            i = i + 1;
        }
        proof {
            lemma_first_match_at(self.runtimes@, |r: PaneRuntime| r.pane == p, i as int);
        }
        None
    }

    /// The emulator of `pane`, if it has a runtime.
    pub fn terminal(&self, pane: PaneId) -> (r: Option<&Terminal>)
        ensures
            match rt_pos(self.runtime_seq(), pane) {
                Some(i) => r matches Some(t) && *t == self.runtime_seq()[i].term,
                None => r is None,
            },
            r matches Some(t) ==> (self.wf() ==> t.wf()),
    {
        match self.rt_index(pane) {
            Some(i) => Some(&self.runtimes[i].term),
            None => None,
        }
    }

    /// Whether the pane's process is still running (a pane with no runtime
    /// counts as alive).
    pub fn pane_alive(&self, pane: PaneId) -> (b: bool)
        ensures
            b == match rt_pos(self.runtime_seq(), pane) {
                Some(i) => !self.runtime_seq()[i].exited,
                None => true,
            },
    {
        match self.rt_index(pane) {
            Some(i) => !self.runtimes[i].exited,
            None => true,
        }
    }

    /// The panes that have a runtime, in attach order.
    pub fn runtime_panes(&self) -> (v: Vec<PaneId>)
        ensures
            v@ == self.runtime_seq().map_values(|r: PaneRuntime| r.pane),
    {
        let mut v: Vec<PaneId> = Vec::new();
        let mut i: usize = 0;
        while i < self.runtimes.len()
            invariant
                i <= self.runtimes@.len(),
                v@ == self.runtimes@.take(i as int).map_values(|r: PaneRuntime| r.pane),
            decreases self.runtimes@.len() - i,
        {
            v.push(self.runtimes[i].pane);
            i = i + 1;
            assert(v@ =~= self.runtimes@.take(i as int).map_values(|r: PaneRuntime| r.pane));
        }
        assert(self.runtimes@.take(i as int) =~= self.runtimes@);
        v
    }

    /// The focused pane, when it has a runtime to write keyboard input to.
    pub fn focused_runtime(&self) -> (r: Option<PaneId>)
        ensures
            r == (match self.state.focused_of() {
                Some(p) => if rt_pos(self.runtime_seq(), p) is Some {
                    Some(p)
                } else {
                    None
                },
                None => None,
            }),
    {
        match self.state.focused_pane() {
            Some(p) => match self.rt_index(p) {
                Some(_) => Some(p),
                None => None,
            },
            None => None,
        }
    }
}

/// Pane `p` is in the topology, is not a browser and has no runtime yet.
pub open spec fn needs_runtime(e: Engine, p: PaneId) -> bool {
    &&& e.state.pane_map().contains_key(p)
    &&& !(e.state.pane_map()[p].kind is Browser)
    &&& rt_pos(e.runtime_seq(), p) is None
}

/// A runtime whose pane is still in the topology.
pub open spec fn is_live(m: Map<PaneId, crate::pane::Pane>) -> spec_fn(PaneRuntime) -> bool {
    |r: PaneRuntime| m.contains_key(r.pane)
}

impl Engine {
    /// The panes to spawn a shell for: every terminal pane of the topology
    /// that has no runtime yet, each once (in no particular order).
    pub fn spawn_plan(&self) -> (v: Vec<PaneId>)
        requires
            self.wf(),
        ensures
            v@.no_duplicates(),
            forall|p: PaneId| v@.contains(p) <==> needs_runtime(*self, p),
    {
        let keys = self.state.pane_ids();
        let ghost pred = |p: PaneId| needs_runtime(*self, p);
        let mut out: Vec<PaneId> = Vec::new();
        let mut i: usize = 0;
        while i < keys.len()
            invariant
                i <= keys@.len(),
                self.wf(),
                keys@.to_set() == self.state.pane_map().dom(),
                pred == (|p: PaneId| needs_runtime(*self, p)),
                out@ == keys@.take(i as int).filter(pred),
            decreases keys@.len() - i,
        {
            let k = keys[i];
            assert(keys@.to_set().contains(k));
            let browser = match self.state.pane(k) {
                Some(p) => p.is_browser(),
                None => false,
            };
            if !browser && self.rt_index(k).is_none() {
                out.push(k);
            }
            proof {
                reveal(Seq::filter);
                assert(keys@.take(i + 1).drop_last() =~= keys@.take(i as int));
                assert(keys@.take(i + 1).last() == k);
            }
            i = i + 1;
        }
        proof {
            assert(keys@.take(i as int) =~= keys@);
            lemma_filter_no_dup(keys@, pred);
            lemma_filter_sub(keys@, pred);
            assert forall|p: PaneId| out@.contains(p) <==> needs_runtime(*self, p) by {
                if out@.contains(p) {
                    let q = choose|q: int| 0 <= q < out@.len() && out@[q] == p;
                    keys@.lemma_filter_pred(pred, q);
                }
                if needs_runtime(*self, p) {
                    assert(keys@.to_set().contains(p));
                    let j = choose|j: int| 0 <= j < keys@.len() && keys@[j] == p;
                    keys@.lemma_filter_contains(pred, j);
                }
            }
        }
        out
    }

    /// Give pane `pane` a runtime with a fresh default-size emulator, unless
    /// it has one already; whether one was added.
    pub fn attach_runtime(&mut self, pane: PaneId) -> (added: bool)
        requires
            old(self).wf(),
        ensures
            final(self).wf(),
            added == rt_pos(old(self).runtime_seq(), pane) is None,
            final(self).state == old(self).state,
            final(self).alerts == old(self).alerts,
            added ==> final(self).runtime_seq().drop_last() == old(self).runtime_seq()
                && final(self).runtime_seq().last().pane == pane
                && final(self).runtime_seq().last().term@ == initial_view(
                    DEFAULT_ROWS as nat,
                    DEFAULT_COLS as nat,
                ) && !final(self).runtime_seq().last().exited
                && final(self).runtime_seq().last().term.history() == Seq::<Seq<u8>>::empty(),
            !added ==> final(self).runtime_seq() == old(self).runtime_seq(),
    {
        if self.rt_index(pane).is_some() {
            return false;
        }
        proof {
            lemma_first_match(self.runtimes@, |r: PaneRuntime| r.pane == pane);
        }
        let term = Terminal::new(DEFAULT_ROWS as usize, DEFAULT_COLS as usize);
        self.runtimes.push(PaneRuntime { pane, term, exited: false });
        proof {
            assert(self.runtime_seq().drop_last() =~= old(self).runtime_seq());
        }
        true
    }

    /// Drop the runtimes whose pane has left the topology.
    pub fn drop_stale_runtimes(&mut self)
        requires
            old(self).wf(),
        ensures
            final(self).wf(),
            final(self).state == old(self).state,
            final(self).alerts == old(self).alerts,
            final(self).runtime_seq() == old(self).runtime_seq().filter(is_live(old(self).state.pane_map())),
    {
        let ghost keep = is_live(self.state.pane_map());
        let ghost orig = self.runtimes@;
        let n = self.runtimes.len();
        let mut rest: Vec<PaneRuntime> = Vec::new();
        std::mem::swap(&mut rest, &mut self.runtimes);
        let mut k: usize = 0;
        while rest.len() > 0
            invariant
                self.state == old(self).state,
                self.alerts == old(self).alerts,
                keep == is_live(self.state.pane_map()),
                orig == old(self).runtime_seq(),
                k + rest@.len() == orig.len(),
                orig.len() == n,
                rest@ == orig.skip(k as int),
                self.runtimes@ == orig.take(k as int).filter(keep),
                old(self).wf(),
            decreases rest@.len(),
        {
            let r = rest.remove(0);
            proof {
                reveal(Seq::filter);
                assert(orig.take(k + 1).drop_last() =~= orig.take(k as int));
                assert(orig.take(k + 1).last() == orig[k as int]);
                assert(orig.skip(k + 1) =~= rest@);
            }
            if self.state.pane(r.pane).is_some() {
                self.runtimes.push(r);
            }
            k = k + 1;
        }
        proof {
            assert(orig.take(k as int) =~= orig);
            let f = self.runtimes@;
            lemma_filter_sub(orig, keep);
            assert forall|i: int| 0 <= i < f.len() implies (#[trigger] f[i]).term.wf() by {
                assert(orig.contains(f[i]));
                let j = choose|j: int| 0 <= j < orig.len() && orig[j] == f[i];
            }
            assert forall|i: int, j: int| 0 <= i < j < f.len() implies (#[trigger] f[i]).pane != (#[trigger] f[j]).pane by {
                lemma_filter_distinct_panes(orig, keep, i, j);
            }
        }
    }

    /// Feed output of pane `pane`'s process to its emulator; `false` when it
    /// has no runtime.
    pub fn feed_pane(&mut self, pane: PaneId, bytes: &[u8]) -> (b: bool)
        requires
            old(self).wf(),
        ensures
            final(self).wf(),
            b == rt_pos(old(self).runtime_seq(), pane) is Some,
            final(self).state == old(self).state,
            final(self).alerts == old(self).alerts,
            final(self).runtime_seq().len() == old(self).runtime_seq().len(),
            forall|i: int| 0 <= i < old(self).runtime_seq().len() && rt_pos(old(self).runtime_seq(), pane) != Some(i)
                ==> #[trigger] final(self).runtime_seq()[i] == old(self).runtime_seq()[i],
            b ==> ({
                let i = rt_pos(old(self).runtime_seq(), pane)->0;
                let o = old(self).runtime_seq()[i];
                let n = final(self).runtime_seq()[i];
                &&& n.pane == o.pane && n.exited == o.exited
                &&& n.term@ == crate::term::spec_run(o.term@, crate::term::vte_actions(o.term.history(), bytes@))
                &&& n.term.history() == o.term.history().push(bytes@)
            }),
    {
        match self.rt_index(pane) {
            Some(i) => {
                let mut r = self.runtimes.remove(i);
                r.term.feed(bytes);
                self.runtimes.insert(i, r);
                proof {
                    assert forall|j: int| 0 <= j < self.runtime_seq().len() && j != i implies #[trigger] self.runtime_seq()[j] == old(self).runtime_seq()[j] by {}
                }
                true
            },
            None => false,
        }
    }

    /// Record that pane `pane`'s process exited; `false` when it has no
    /// runtime.
    pub fn mark_exited(&mut self, pane: PaneId) -> (b: bool)
        requires
            old(self).wf(),
        ensures
            final(self).wf(),
            b == rt_pos(old(self).runtime_seq(), pane) is Some,
            final(self).state == old(self).state,
            final(self).alerts == old(self).alerts,
            b ==> final(self).runtime_seq() == old(self).runtime_seq().update(
                rt_pos(old(self).runtime_seq(), pane)->0,
                PaneRuntime { exited: true, ..old(self).runtime_seq()[rt_pos(old(self).runtime_seq(), pane)->0] },
            ),
            !b ==> final(self).runtime_seq() == old(self).runtime_seq(),
    {
        match self.rt_index(pane) {
            Some(i) => {
                self.runtimes[i].exited = true;
                true
            },
            None => false,
        }
    }
}

/// Every element of a filtered sequence comes from the sequence.
proof fn lemma_filter_sub<A>(s: Seq<A>, f: spec_fn(A) -> bool)
    ensures
        forall|i: int| 0 <= i < s.filter(f).len() ==> s.contains(#[trigger] s.filter(f)[i]),
    decreases s.len(),
{
    reveal(Seq::filter);
    if s.len() > 0 {
        let d = s.drop_last();
        lemma_filter_sub(d, f);
        assert forall|i: int| 0 <= i < s.filter(f).len() implies s.contains(#[trigger] s.filter(f)[i]) by {
            if f(s.last()) && i == s.filter(f).len() - 1 {
                assert(s[s.len() - 1] == s.last());
            } else {
                assert(s.filter(f)[i] == d.filter(f)[i]);
                assert(d.contains(d.filter(f)[i]));
                let j = choose|j: int| 0 <= j < d.len() && d[j] == d.filter(f)[i];
                assert(s[j] == d[j]);
            }
        }
    }
}

/// Filtering keeps a sequence free of duplicates.
proof fn lemma_filter_no_dup<A>(s: Seq<A>, f: spec_fn(A) -> bool)
    requires
        s.no_duplicates(),
    ensures
        s.filter(f).no_duplicates(),
    decreases s.len(),
{
    reveal(Seq::filter);
    if s.len() > 0 {
        let d = s.drop_last();
        assert(d.no_duplicates()) by {
            assert forall|a: int, b: int| 0 <= a < d.len() && 0 <= b < d.len() && a != b implies d[a] != d[b] by {
                assert(d[a] == s[a] && d[b] == s[b]);
            }
        }
        lemma_filter_no_dup(d, f);
        if f(s.last()) {
            lemma_filter_sub(d, f);
            let t = d.filter(f);
            assert forall|a: int| 0 <= a < t.len() implies #[trigger] t[a] != s.last() by {
                assert(d.contains(t[a]));
                let j = choose|j: int| 0 <= j < d.len() && d[j] == t[a];
                assert(s[j] == d[j]);
                assert(s[s.len() - 1] == s.last());
            }
            assert forall|a: int, b: int| 0 <= a < t.len() + 1 && 0 <= b < t.len() + 1 && a != b implies
                t.push(s.last())[a] != t.push(s.last())[b] by {
                if a < t.len() && b < t.len() {
                } else if a < t.len() {
                    assert(t[a] != s.last());
                } else {
                    assert(t[b] != s.last());
                }
            }
        }
    }
}

proof fn lemma_filter_distinct_panes(s: Seq<PaneRuntime>, f: spec_fn(PaneRuntime) -> bool, i: int, j: int)
    requires
        forall|a: int, b: int| 0 <= a < b < s.len() ==> (#[trigger] s[a]).pane != (#[trigger] s[b]).pane,
        0 <= i < j < s.filter(f).len(),
    ensures
        s.filter(f)[i].pane != s.filter(f)[j].pane,
    decreases s.len(),
{
    let t = s.filter(f);
    reveal(Seq::filter);
    if s.len() > 0 {
        let d = s.drop_last();
        assert forall|a: int, b: int| 0 <= a < b < d.len() implies (#[trigger] d[a]).pane != (#[trigger] d[b]).pane by {
            assert(d[a] == s[a] && d[b] == s[b]);
        }
        if f(s.last()) {
            assert(t == d.filter(f).push(s.last()));
            if j < d.filter(f).len() {
                lemma_filter_distinct_panes(d, f, i, j);
            } else {
                lemma_filter_sub(d, f);
                assert(d.contains(d.filter(f)[i]));
                let k = choose|k: int| 0 <= k < d.len() && d[k] == d.filter(f)[i];
                assert(s[k] == d[k]);
                assert(s[s.len() - 1] == s.last());
                assert(t[j] == s.last());
                assert(t[i] == d.filter(f)[i]);
            }
        } else {
            assert(t == d.filter(f));
            lemma_filter_distinct_panes(d, f, i, j);
        }
    }
}

/// The workspace a new tab goes to: the one named, else the active one.
pub open spec fn new_tab_target(st: AppState, workspace: Option<WorkspaceId>) -> Option<WorkspaceId> {
    match workspace {
        Some(w) => Some(w),
        None => st.active_ws(),
    }
}

/// A requested workspace title, `workspace` when none was given.
pub open spec fn title_or_default(title: Option<String>) -> Seq<char> {
    match title {
        Some(t) => t@,
        None => "workspace"@,
    }
}

/// Only the topology may have changed.
pub open spec fn same_runtimes(pre: Engine, post: Engine) -> bool {
    post.runtime_seq() == pre.runtime_seq() && post.alerts == pre.alerts
}

/// Nothing changed.
pub open spec fn same_engine(pre: Engine, post: Engine) -> bool {
    post.state == pre.state && same_runtimes(pre, post)
}

/// Search hits as (line, col) pairs.
pub open spec fn hit_pairs(m: Seq<Match>) -> Seq<(usize, usize)> {
    m.map_values(|x: Match| (x.line, x.col))
}

/// A request addressed to a pane's PTY: write `bytes` to `target` when it
/// has a runtime, else answer "no such pane".
pub open spec fn write_step(pre: Engine, target: PaneId, bytes: Seq<u8>, s: Step) -> bool {
    if rt_pos(pre.runtime_seq(), target) is Some {
        s matches Step::Write { pane, bytes: b } && pane == target && b@ == bytes
    } else {
        is_error(s, "no such pane"@)
    }
}

/// What [`Engine::handle_request`] does with `req` at time `now`: how the
/// engine after relates to the engine before, and the step that finishes
/// the request.
pub open spec fn handled(pre: Engine, post: Engine, req: Request, now: u64, s: Step) -> bool {
    let st = pre.state;
    let st2 = post.state;
    match req {
        Request::Ping => same_engine(pre, post) && s == Step::Reply(Response::Pong),
        Request::ListWorkspaces => {
            &&& same_engine(pre, post)
            &&& s matches Step::Reply(Response::Workspaces { workspaces })
            &&& workspaces@.len() == st.ws_seq().len()
            &&& forall|i: int| 0 <= i < workspaces@.len() ==> ws_summary_ok(#[trigger] workspaces@[i], st, st.ws_seq()[i])
        },
        Request::Send { pane, data } => same_engine(pre, post) && match target_of(st, pane) {
            Some(p) => write_step(pre, p, vstd::utf8::encode_utf8(data@), s),
            None => is_error(s, "no such pane"@),
        },
        Request::SendKey { pane, key } => same_engine(pre, post) && match (target_of(st, pane), crate::keys::spec_chord_to_bytes(key@)) {
            (Some(p), Some(b)) => write_step(pre, p, b, s),
            (_, None) => is_error(s, "unknown key: "@ + key@),
            (None, Some(_)) => is_error(s, "no focused pane"@),
        },
        Request::Focus { target } => same_runtimes(pre, post) && match target {
            Target::Workspace(w) => exists|b: bool| #[trigger] focus_workspace_effect(st, st2, w, b) && done_or(b, s, "focus target not found"@),
            Target::Tab(t) => match ws_with_tab(st.ws_seq(), t) {
                Some(i) => exists|b: bool| #[trigger] focus_tab_effect(st, st2, st.ws_seq()[i].id, t, b) && done_or(b, s, "focus target not found"@),
                None => st2 == st && is_error(s, "focus target not found"@),
            },
            Target::Pane(p) => exists|b: bool| #[trigger] focus_pane_effect(st, st2, p, b) && done_or(b, s, "focus target not found"@),
        },
        Request::FocusDir { dir } => same_runtimes(pre, post) && exists|b: bool|
            #[trigger] focus_dir_effect(st, st2, focus_dir_of(dir), b) && done_or(b, s, "no pane in that direction"@),
        Request::NewTab { workspace } => same_runtimes(pre, post) && match new_tab_target(st, workspace) {
            Some(w) => exists|r: Option<crate::ids::TabId>| #[trigger] add_tab_effect(st, st2, w, r) && st2.panes_wf()
                && st2.closed_seq() == st.closed_seq() && created_or(raw_tab(r), s, "no workspace"@),
            None => st2 == st && is_error(s, "no workspace"@),
        },
        Request::NewWorkspace { title } => same_runtimes(pre, post) && exists|id: WorkspaceId|
            #[trigger] new_workspace_effect(st, st2, title_or_default(title), id) && s == Step::Reply(
                Response::Created { id: id.0 },
            ),
        Request::Split { pane, orientation } => same_runtimes(pre, post) && match target_of(st, pane) {
            Some(p) => exists|r: Option<PaneId>| #[trigger] split_pane_effect(st, st2, p, orientation_of(orientation), r)
                && created_or(raw_pane(r), s, "could not split"@),
            None => st2 == st && is_error(s, "could not split"@),
        },
        Request::ClosePane { pane } => same_runtimes(pre, post) && exists|b: bool|
            #[trigger] close_pane_effect(st, st2, pane, b) && done_or(b, s, "no such pane"@),
        Request::Notify { pane, title, body } => same_runtimes(pre, post) && exists|r: Option<u64>|
            #[trigger] notify_effect(st, st2, pane, title@, body@, now, r) && done_or(r is Some, s, "no such pane"@),
        Request::Snapshot { pane } => same_engine(pre, post) && match rt_pos(pre.runtime_seq(), pane) {
            Some(i) => s matches Step::Reply(Response::Snapshot { text }) && text@ == render_rows(
                pre.runtime_seq()[i].term@.screen.grid,
                pre.runtime_seq()[i].term@.screen.rows as int,
            ),
            None => if st.pane_map().contains_key(pane) && st.pane_map()[pane].kind is Browser {
                is_error(s, "pane is a browser, not a terminal"@)
            } else {
                is_error(s, "no such pane"@)
            },
        },
        Request::GetConfig { path } => same_engine(pre, post) && s == Step::GetConfig { path },
        Request::SetConfig { path, value } => same_engine(pre, post) && s == Step::SetConfig { path, value },
        Request::RunAction { name } => same_engine(pre, post) && s == Step::RunAction { name },
        Request::ListNotifications => {
            &&& same_engine(pre, post)
            &&& s matches Step::Reply(Response::Notifications { notifications })
            &&& notifications@.len() == st.feed().entry_seq().len()
            &&& forall|i: int| 0 <= i < notifications@.len() ==> same_entry(#[trigger] notifications@[i], st.feed().entry_seq()[i])
        },
        Request::MarkAllRead => {
            &&& same_runtimes(pre, post)
            &&& st2.feed().entry_seq() == crate::notification::mark_where(st.feed().entry_seq(), |x: Notification| true)
            &&& st2.feed().next_id_value() == st.feed().next_id_value()
            &&& st2.same_ws(st) && st2.same_active(st) && st2.same_panes(st) && st2.same_history(st)
            &&& s == Step::Reply(Response::Done)
        },
        Request::RenameTab { tab, title } => same_runtimes(pre, post) && exists|b: bool|
            #[trigger] rename_tab_effect(st, st2, tab, title@, b) && done_or(b, s, "no such tab"@),
        Request::RenameWorkspace { workspace, title } => same_runtimes(pre, post) && exists|b: bool|
            #[trigger] rename_workspace_effect(st, st2, workspace, title@, b) && done_or(b, s, "no such workspace"@),
        Request::ReorderTab { tab, index } => same_runtimes(pre, post) && match ws_with_tab(st.ws_seq(), tab) {
            Some(i) => exists|b: bool| #[trigger] reorder_tab_effect(st, st2, st.ws_seq()[i].id, tab, index, b) && done_or(b, s, "no such tab"@),
            None => st2 == st && is_error(s, "no such tab"@),
        },
        Request::ResizePane { pane, rows, cols } => {
            let r: u16 = if rows < 1 { 1 } else { rows };
            let c: u16 = if cols < 1 { 1 } else { cols };
            &&& post.state == pre.state && post.alerts == pre.alerts
            &&& match rt_pos(pre.runtime_seq(), pane) {
                Some(i) => if fits(r as nat, c as nat) {
                    &&& post.runtime_seq().len() == pre.runtime_seq().len()
                    &&& forall|j: int| 0 <= j < pre.runtime_seq().len() && j != i ==> #[trigger] post.runtime_seq()[j] == pre.runtime_seq()[j]
                    &&& post.runtime_seq()[i].pane == pane
                    &&& post.runtime_seq()[i].exited == pre.runtime_seq()[i].exited
                    &&& post.runtime_seq()[i].term@ == term_resized(pre.runtime_seq()[i].term@, r as nat, c as nat)
                    &&& s == Step::Resize { pane, rows: r, cols: c }
                } else {
                    post.runtime_seq() == pre.runtime_seq() && is_error(s, "grid too large"@)
                },
                None => post.runtime_seq() == pre.runtime_seq() && is_error(s, "no such pane"@),
            }
        },
        Request::OpenBrowser { url, orientation } => same_runtimes(pre, post) && exists|r: Option<PaneId>|
            #[trigger] split_focused_browser_effect(st, st2, url@, orientation_of(orientation), r)
                && created_or(raw_pane(r), s, "could not open browser"@),
        Request::NavigateBrowser { pane, url } => same_runtimes(pre, post) && exists|b: bool|
            #[trigger] set_browser_url_effect(st, st2, pane, url@, b) && done_or(b, s, "not a browser pane"@),
        Request::Find { pane, query } => same_engine(pre, post) && match rt_pos(pre.runtime_seq(), pane) {
            Some(i) => s matches Step::Reply(Response::Matches { matches }) && matches@ == hit_pairs(
                spec_search(pre.runtime_seq()[i].term@, query@),
            ),
            None => is_error(s, "no such pane"@),
        },
        Request::CloseWorkspace { workspace } => same_runtimes(pre, post) && exists|b: bool|
            #[trigger] close_workspace_effect(st, st2, workspace, b) && done_or(b, s, "no such workspace"@),
        Request::ReorderWorkspace { workspace, index } => same_runtimes(pre, post) && exists|b: bool|
            #[trigger] reorder_workspace_effect(st, st2, workspace, index, b) && done_or(b, s, "no such workspace"@),
        Request::Equalize => same_runtimes(pre, post) && exists|b: bool|
            #[trigger] equalize_active_effect(st, st2, b) && done_or(b, s, "no active tab"@),
        Request::ToggleZoom => same_runtimes(pre, post) && exists|b: bool|
            #[trigger] toggle_zoom_effect(st, st2, b) && done_or(b, s, "no active tab"@),
        Request::NextTab => same_runtimes(pre, post) && exists|b: bool|
            #[trigger] focus_adjacent_tab_effect(st, st2, true, b) && done_or(b, s, "no other tab"@),
        Request::PrevTab => same_runtimes(pre, post) && exists|b: bool|
            #[trigger] focus_adjacent_tab_effect(st, st2, false, b) && done_or(b, s, "no other tab"@),
        Request::MarkNotificationRead { id } => same_runtimes(pre, post) && exists|b: bool|
            #[trigger] mark_notification_read_effect(st, st2, id, b) && done_or(b, s, "no such notification"@),
        Request::DismissNotification { id } => same_runtimes(pre, post) && exists|b: bool|
            #[trigger] dismiss_notification_effect(st, st2, id, b) && done_or(b, s, "no such notification"@),
    }
}

/// The UTF-8 bytes of `s`.
fn utf8_bytes(s: &str) -> (b: Vec<u8>)
    ensures
        b@ == vstd::utf8::encode_utf8(s@),
{
    let bytes = s.as_bytes();
    let mut out: Vec<u8> = Vec::new();
    let mut i: usize = 0;
    while i < bytes.len()
        invariant
            i <= bytes@.len(),
            out@ == bytes@.take(i as int),
        decreases bytes@.len() - i,
    {
        out.push(bytes[i]);
        i = i + 1;
        assert(out@ =~= bytes@.take(i as int));
    }
    assert(bytes@.take(i as int) =~= bytes@);
    out
}

fn reply_done_or(b: bool, msg: &str) -> (s: Step)
    ensures
        done_or(b, s, msg@),
{
    if b {
        Step::Reply(Response::Done)
    } else {
        Step::Reply(Response::error(msg))
    }
}

fn reply_created_or(r: Option<u64>, msg: &str) -> (s: Step)
    ensures
        created_or(r, s, msg@),
{
    match r {
        Some(id) => Step::Reply(Response::Created { id }),
        None => Step::Reply(Response::error(msg)),
    }
}

fn pane_raw(r: Option<PaneId>) -> (x: Option<u64>)
    ensures
        x == raw_pane(r),
{
    match r {
        Some(p) => Some(p.0),
        None => None,
    }
}

fn focus_dir_from(d: Dir) -> (f: FocusDir)
    ensures
        f == focus_dir_of(d),
{
    match d {
        Dir::Left => FocusDir::Left,
        Dir::Right => FocusDir::Right,
        Dir::Up => FocusDir::Up,
        Dir::Down => FocusDir::Down,
    }
}

impl Engine {
    /// The step writing `bytes` to `target`, when it has a runtime.
    fn write_to(&self, target: PaneId, bytes: Vec<u8>) -> (s: Step)
        ensures
            write_step(*self, target, bytes@, s),
    {
        match self.rt_index(target) {
            Some(_) => Step::Write { pane: target, bytes },
            None => Step::Reply(Response::error("no such pane")),
        }
    }

    /// The answer to a [`Step::Write`] once the write was attempted.
    pub fn write_reply(ok: bool) -> (r: Response)
        ensures
            ok ==> r == Response::Done,
            !ok ==> (r matches Response::Error { message } && message@ == "no such pane"@),
    {
        if ok {
            Response::Done
        } else {
            Response::error("no such pane")
        }
    }
}

impl Engine {
    /// Requests answered from the emulators, or finished by PTY or config work.
    fn handle_answer_or_pty(&mut self, req: Request, now_ms: u64) -> (s: Step)
        requires
            old(self).wf(),
            old(self).state.next_id() + 3 <= u64::MAX,
            old(self).state.feed().next_id_value() < u64::MAX,
            req is Ping || req is ListWorkspaces || req is Send || req is SendKey || req is Snapshot || req is GetConfig || req is SetConfig || req is ListNotifications || req is Find || req is ResizePane || req is RunAction,
        ensures
            final(self).wf(),
            handled(*old(self), *final(self), req, now_ms, s),
    {
        let ghost pre = *self;
        match req {
            Request::Ping => Step::Reply(Response::Pong),
            Request::ListWorkspaces => Step::Reply(Response::Workspaces { workspaces: summarize(&self.state) }),
            Request::Send { pane, data } => {
                let target = match pane {
                    Some(p) => Some(p),
                    None => self.state.focused_pane(),
                };
                match target {
                    Some(p) => self.write_to(p, utf8_bytes(data.as_str())),
                    None => Step::Reply(Response::error("no such pane")),
                }
            },
            Request::SendKey { pane, key } => {
                let bytes = crate::keys::chord_to_bytes(key.as_str());
                let target = match pane {
                    Some(p) => Some(p),
                    None => self.state.focused_pane(),
                };
                match (target, bytes) {
                    (Some(p), Some(b)) => self.write_to(p, b),
                    (_, None) => {
                        let mut m = "unknown key: ".to_owned();
                        crate::keys::push_str(&mut m, key.as_str());
                        Step::Reply(Response::Error { message: m })
                    },
                    (None, _) => Step::Reply(Response::error("no focused pane")),
                }
            },
            Request::Snapshot { pane } => match self.terminal(pane) {
                Some(t) => Step::Reply(Response::Snapshot { text: t.render_to_string() }),
                None => {
                    let browser = match self.state.pane(pane) {
                        Some(p) => p.is_browser(),
                        None => false,
                    };
                    if browser {
                        Step::Reply(Response::error("pane is a browser, not a terminal"))
                    } else {
                        Step::Reply(Response::error("no such pane"))
                    }
                },
            },
            Request::GetConfig { path } => Step::GetConfig { path },
            Request::SetConfig { path, value } => Step::SetConfig { path, value },
            Request::RunAction { name } => Step::RunAction { name },
            Request::ListNotifications => Step::Reply(
                Response::Notifications { notifications: copy_entries(self.state.notification_entries()) },
            ),
            Request::Find { pane, query } => match self.terminal(pane) {
                Some(t) => {
                    let hits = t.search(query.as_str());
                    let mut out: Vec<(usize, usize)> = Vec::new();
                    let mut k: usize = 0;
                    while k < hits.len()
                        invariant
                            k <= hits@.len(),
                            out@ == hit_pairs(hits@.take(k as int)),
                        decreases hits@.len() - k,
                    {
                        out.push((hits[k].line, hits[k].col));
                        k = k + 1;
                        assert(out@ =~= hit_pairs(hits@.take(k as int)));
                    }
                    assert(hits@.take(k as int) =~= hits@);
                    Step::Reply(Response::Matches { matches: out })
                },
                None => Step::Reply(Response::error("no such pane")),
            },
            Request::ResizePane { pane, rows, cols } => {
                let r: u16 = if rows < 1 { 1 } else { rows };
                let c: u16 = if cols < 1 { 1 } else { cols };
                match self.rt_index(pane) {
                    Some(i) => {
                        assert((r as u64) * (c as u64) <= 0xffff_ffff) by (nonlinear_arith)
                            requires
                                r <= 0xffff,
                                c <= 0xffff,
                        ;
                        if (r as u64) * (c as u64) > 0x7fff_ffff {
                            Step::Reply(Response::error("grid too large"))
                        } else {
                            let mut rt = self.runtimes.remove(i);
                            rt.term.resize(r as usize, c as usize);
                            self.runtimes.insert(i, rt);
                            proof {
                                assert forall|j: int| 0 <= j < self.runtime_seq().len() && j != i implies #[trigger] self.runtime_seq()[j] == pre.runtime_seq()[j] by {}
                            }
                            Step::Resize { pane, rows: r, cols: c }
                        }
                    },
                    None => Step::Reply(Response::error("no such pane")),
                }
            },
            _ => {
                assert(false);
                Step::Reply(Response::Pong)
            },
        }
    }

    /// Requests that move focus.
    fn handle_focus(&mut self, req: Request, now_ms: u64) -> (s: Step)
        requires
            old(self).wf(),
            old(self).state.next_id() + 3 <= u64::MAX,
            old(self).state.feed().next_id_value() < u64::MAX,
            req is Focus || req is FocusDir || req is NextTab || req is PrevTab,
        ensures
            final(self).wf(),
            handled(*old(self), *final(self), req, now_ms, s),
    {
        let ghost pre = *self;
        let s = match req {
            Request::Focus { target } => {
                let ok = match target {
                    Target::Workspace(w) => self.state.focus_workspace(w),
                    Target::Tab(t) => match self.state.locate_tab_workspace(t) {
                        Some(w) => self.state.focus_tab(w, t),
                        None => false,
                    },
                    Target::Pane(p) => self.state.focus_pane(p),
                };
                reply_done_or(ok, "focus target not found")
            },
            Request::FocusDir { dir } => {
                let ok = self.state.focus_dir(focus_dir_from(dir));
                reply_done_or(ok, "no pane in that direction")
            },
            Request::NextTab => {
                let ok = self.state.focus_adjacent_tab(true);
                reply_done_or(ok, "no other tab")
            },
            Request::PrevTab => {
                let ok = self.state.focus_adjacent_tab(false);
                reply_done_or(ok, "no other tab")
            },
            _ => {
                assert(false);
                Step::Reply(Response::Pong)
            },
        };
        proof {
            if self.state.same_panes(pre.state) {
                lemma_same_panes(self.state, pre.state);
            }
            assert(self.runtimes@ == pre.runtimes@);
            assert(self.state.panes_wf());
            assert(pre.wf());
            assert(self.runtime_seq() == pre.runtime_seq());
            assert(self.wf());
        }
        s
    }

    /// Requests that create panes, tabs or workspaces.
    fn handle_create(&mut self, req: Request, now_ms: u64) -> (s: Step)
        requires
            old(self).wf(),
            old(self).state.next_id() + 3 <= u64::MAX,
            old(self).state.feed().next_id_value() < u64::MAX,
            req is NewTab || req is NewWorkspace || req is Split || req is OpenBrowser,
        ensures
            final(self).wf(),
            handled(*old(self), *final(self), req, now_ms, s),
    {
        let ghost pre = *self;
        let s = match req {
            Request::NewTab { workspace } => {
                let ws = match workspace {
                    Some(w) => Some(w),
                    None => self.state.active_id(),
                };
                match ws {
                    Some(w) => {
                        let t = self.state.add_tab(w);
                        let raw = match t {
                            Some(t) => Some(t.0),
                            None => None,
                        };
                        assert(ws == new_tab_target(pre.state, workspace));
                        assert(add_tab_effect(pre.state, self.state, new_tab_target(pre.state, workspace)->0, t));
                        reply_created_or(raw, "no workspace")
                    },
                    None => Step::Reply(Response::error("no workspace")),
                }
            },
            Request::NewWorkspace { title } => {
                let id = match &title {
                    Some(t) => self.state.new_workspace(t.as_str()),
                    None => self.state.new_workspace("workspace"),
                };
                assert(new_workspace_effect(pre.state, self.state, title_or_default(title), id));
                Step::Reply(Response::Created { id: id.0 })
            },
            Request::Split { pane, orientation } => {
                let target = match pane {
                    Some(p) => Some(p),
                    None => self.state.focused_pane(),
                };
                match target {
                    Some(p) => {
                        let o = Orientation::from(orientation);
                        assert(o == orientation_of(orientation));
                        let n = self.state.split_pane(p, o);
                        assert(split_pane_effect(pre.state, self.state, p, orientation_of(orientation), n));
                        reply_created_or(pane_raw(n), "could not split")
                    },
                    None => Step::Reply(Response::error("could not split")),
                }
            },
            Request::OpenBrowser { url, orientation } => {
                let o = Orientation::from(orientation);
                assert(o == orientation_of(orientation));
                let r = self.state.split_focused_browser(url.as_str(), o);
                assert(split_focused_browser_effect(pre.state, self.state, url@, orientation_of(orientation), r));
                reply_created_or(pane_raw(r), "could not open browser")
            },
            _ => {
                assert(false);
                Step::Reply(Response::Pong)
            },
        };
        proof {
            if self.state.same_panes(pre.state) {
                lemma_same_panes(self.state, pre.state);
            }
            assert(self.runtimes@ == pre.runtimes@);
            assert(self.state.panes_wf());
            assert(pre.wf());
            assert(self.runtime_seq() == pre.runtime_seq());
            assert(self.wf());
        }
        s
    }

    /// Requests that close panes or workspaces.
    fn handle_close(&mut self, req: Request, now_ms: u64) -> (s: Step)
        requires
            old(self).wf(),
            old(self).state.next_id() + 3 <= u64::MAX,
            old(self).state.feed().next_id_value() < u64::MAX,
            req is ClosePane || req is CloseWorkspace,
        ensures
            final(self).wf(),
            handled(*old(self), *final(self), req, now_ms, s),
    {
        let ghost pre = *self;
        let s = match req {
            Request::ClosePane { pane } => {
                let ok = self.state.close_pane(pane);
                reply_done_or(ok, "no such pane")
            },
            Request::CloseWorkspace { workspace } => {
                let ok = self.state.close_workspace(workspace);
                reply_done_or(ok, "no such workspace")
            },
            _ => {
                assert(false);
                Step::Reply(Response::Pong)
            },
        };
        proof {
            if self.state.same_panes(pre.state) {
                lemma_same_panes(self.state, pre.state);
            }
            assert(self.runtimes@ == pre.runtimes@);
            assert(self.state.panes_wf());
            assert(pre.wf());
            assert(self.runtime_seq() == pre.runtime_seq());
            assert(self.wf());
        }
        s
    }

    /// Requests that rename, reorder or rearrange.
    fn handle_edit(&mut self, req: Request, now_ms: u64) -> (s: Step)
        requires
            old(self).wf(),
            old(self).state.next_id() + 3 <= u64::MAX,
            old(self).state.feed().next_id_value() < u64::MAX,
            req is RenameTab || req is RenameWorkspace || req is ReorderTab || req is ReorderWorkspace || req is Equalize || req is ToggleZoom || req is NavigateBrowser,
        ensures
            final(self).wf(),
            handled(*old(self), *final(self), req, now_ms, s),
    {
        let ghost pre = *self;
        let s = match req {
            Request::RenameTab { tab, title } => {
                let ok = self.state.rename_tab(tab, title.as_str());
                reply_done_or(ok, "no such tab")
            },
            Request::RenameWorkspace { workspace, title } => {
                let ok = self.state.rename_workspace(workspace, title.as_str());
                reply_done_or(ok, "no such workspace")
            },
            Request::ReorderTab { tab, index } => match self.state.locate_tab_workspace(tab) {
                Some(ws) => {
                    let ok = self.state.reorder_tab(ws, tab, index);
                    reply_done_or(ok, "no such tab")
                },
                None => Step::Reply(Response::error("no such tab")),
            },
            Request::ReorderWorkspace { workspace, index } => {
                let ok = self.state.reorder_workspace(workspace, index);
                reply_done_or(ok, "no such workspace")
            },
            Request::Equalize => {
                let ok = self.state.equalize_active();
                reply_done_or(ok, "no active tab")
            },
            Request::ToggleZoom => {
                let ok = self.state.toggle_zoom();
                reply_done_or(ok, "no active tab")
            },
            Request::NavigateBrowser { pane, url } => {
                let ok = self.state.set_browser_url(pane, url.as_str());
                reply_done_or(ok, "not a browser pane")
            },
            _ => {
                assert(false);
                Step::Reply(Response::Pong)
            },
        };
        proof {
            if self.state.same_panes(pre.state) {
                lemma_same_panes(self.state, pre.state);
            }
            assert(self.runtimes@ == pre.runtimes@);
            assert(self.state.panes_wf());
            assert(pre.wf());
            assert(self.runtime_seq() == pre.runtime_seq());
            assert(self.wf());
        }
        s
    }

    /// Requests on notifications.
    fn handle_feed(&mut self, req: Request, now_ms: u64) -> (s: Step)
        requires
            old(self).wf(),
            old(self).state.next_id() + 3 <= u64::MAX,
            old(self).state.feed().next_id_value() < u64::MAX,
            req is Notify || req is MarkAllRead || req is MarkNotificationRead || req is DismissNotification,
        ensures
            final(self).wf(),
            handled(*old(self), *final(self), req, now_ms, s),
    {
        let ghost pre = *self;
        let s = match req {
            Request::Notify { pane, title, body } => {
                let r = self.state.notify(pane, title.as_str(), body.as_str(), now_ms);
                reply_done_or(r.is_some(), "no such pane")
            },
            Request::MarkAllRead => {
                self.state.mark_all_read();
                Step::Reply(Response::Done)
            },
            Request::MarkNotificationRead { id } => {
                let ok = self.state.mark_notification_read(id);
                reply_done_or(ok, "no such notification")
            },
            Request::DismissNotification { id } => {
                let ok = self.state.dismiss_notification(id);
                reply_done_or(ok, "no such notification")
            },
            _ => {
                assert(false);
                Step::Reply(Response::Pong)
            },
        };
        proof {
            if self.state.same_panes(pre.state) {
                lemma_same_panes(self.state, pre.state);
            }
            assert(self.runtimes@ == pre.runtimes@);
            assert(self.state.panes_wf());
            assert(pre.wf());
            assert(self.runtime_seq() == pre.runtime_seq());
            assert(self.wf());
        }
        s
    }

    /// Carry out a control request: topology changes happen here, and the
    /// returned step says how to finish (answer, or the PTY or config work
    /// to do first).
    pub fn handle_request(&mut self, req: Request, now_ms: u64) -> (s: Step)
        requires
            old(self).wf(),
            old(self).state.next_id() + 3 <= u64::MAX,
            old(self).state.feed().next_id_value() < u64::MAX,
        ensures
            final(self).wf(),
            handled(*old(self), *final(self), req, now_ms, s),
    {
        if matches!(req, Request::Ping | Request::ListWorkspaces | Request::Send { .. } | Request::SendKey { .. } | Request::Snapshot { .. } | Request::GetConfig { .. } | Request::SetConfig { .. } | Request::ListNotifications | Request::Find { .. } | Request::ResizePane { .. } | Request::RunAction { .. }) {
            self.handle_answer_or_pty(req, now_ms)
        } else if matches!(req, Request::Focus { .. } | Request::FocusDir { .. } | Request::NextTab | Request::PrevTab) {
            self.handle_focus(req, now_ms)
        } else if matches!(req, Request::NewTab { .. } | Request::NewWorkspace { .. } | Request::Split { .. } | Request::OpenBrowser { .. }) {
            self.handle_create(req, now_ms)
        } else if matches!(req, Request::ClosePane { .. } | Request::CloseWorkspace { .. }) {
            self.handle_close(req, now_ms)
        } else if matches!(req, Request::RenameTab { .. } | Request::RenameWorkspace { .. } | Request::ReorderTab { .. } | Request::ReorderWorkspace { .. } | Request::Equalize | Request::ToggleZoom | Request::NavigateBrowser { .. }) {
            self.handle_edit(req, now_ms)
        } else {
            self.handle_feed(req, now_ms)
        }
    }
}

/// The active workspace and its active tab.
pub open spec fn active_tab_target(st: AppState) -> Option<(WorkspaceId, crate::ids::TabId)> {
    match st.active_ws() {
        Some(a) => match ws_pos(st.ws_seq(), a) {
            Some(i) => match st.ws_seq()[i].active_tab {
                Some(t) => Some((st.ws_seq()[i].id, t)),
                None => None,
            },
            None => None,
        },
        None => None,
    }
}

/// The pane of the newest unread notification.
pub open spec fn latest_unread_pane(st: AppState) -> Option<PaneId> {
    let e = st.feed().entry_seq();
    match newest_unread(e, e.len() as int) {
        Some(i) => Some(e[i].pane),
        None => None,
    }
}

/// The focus direction a `focus…` action names.
pub open spec fn action_dir(action: Seq<char>) -> Option<FocusDir> {
    if action == "focusLeft"@ {
        Some(FocusDir::Left)
    } else if action == "focusRight"@ {
        Some(FocusDir::Right)
    } else if action == "focusUp"@ {
        Some(FocusDir::Up)
    } else if action == "focusDown"@ {
        Some(FocusDir::Down)
    } else {
        None
    }
}

/// What [`Engine::dispatch_action`] does with the shortcut action `action`,
/// and whether it reports a change (`b`).
pub open spec fn dispatched(pre: Engine, post: Engine, action: Seq<char>, b: bool) -> bool {
    let st = pre.state;
    let st2 = post.state;
    &&& same_runtimes(pre, post)
    &&& if action == "newTab"@ {
        match st.active_ws() {
            Some(w) => exists|r: Option<crate::ids::TabId>| #[trigger] add_tab_effect(st, st2, w, r) && st2.panes_wf()
                && st2.closed_seq() == st.closed_seq() && b == r is Some,
            None => st2 == st && !b,
        }
    } else if action == "closeTab"@ {
        match active_tab_target(st) {
            Some((w, t)) => exists|c: bool| #[trigger] close_tab_effect(st, st2, w, t, c) && b == c,
            None => st2 == st && !b,
        }
    } else if action == "newWorkspace"@ {
        exists|id: WorkspaceId| #[trigger] new_workspace_effect(st, st2, "workspace"@, id) && b
    } else if action == "splitHorizontal"@ {
        exists|r: Option<PaneId>| #[trigger] split_focused_effect(st, st2, Orientation::Horizontal, r) && b == r is Some
    } else if action == "splitVertical"@ {
        exists|r: Option<PaneId>| #[trigger] split_focused_effect(st, st2, Orientation::Vertical, r) && b == r is Some
    } else if action == "openBrowser"@ {
        exists|r: Option<PaneId>|
            #[trigger] split_focused_browser_effect(st, st2, "https://example.com"@, Orientation::Horizontal, r) && b == r is Some
    } else if action == "closePane"@ {
        match st.focused_of() {
            Some(p) => exists|c: bool| #[trigger] close_pane_effect(st, st2, p, c) && b == c,
            None => st2 == st && !b,
        }
    } else if action_dir(action) is Some {
        exists|c: bool| #[trigger] focus_dir_effect(st, st2, action_dir(action)->0, c) && b == c
    } else if action == "reopenClosedTab"@ {
        exists|r: Option<crate::ids::TabId>| #[trigger] reopen_closed_tab_effect(st, st2, r) && b == r is Some
    } else if action == "jumpToLatestNotification"@ {
        match latest_unread_pane(st) {
            Some(p) => exists|c: bool| #[trigger] focus_pane_effect(st, st2, p, c) && b == c,
            None => st2 == st && !b,
        }
    } else {
        st2 == st && !b
    }
}

impl Engine {
    fn action_dir_of(action: &str) -> (r: Option<FocusDir>)
        ensures
            r == action_dir(action@),
    {
        if crate::text::text_eq(action, "focusLeft") {
            Some(FocusDir::Left)
        } else if crate::text::text_eq(action, "focusRight") {
            Some(FocusDir::Right)
        } else if crate::text::text_eq(action, "focusUp") {
            Some(FocusDir::Up)
        } else if crate::text::text_eq(action, "focusDown") {
            Some(FocusDir::Down)
        } else {
            None
        }
    }

    /// Carry out a configured keyboard-shortcut action; whether it changed
    /// anything. Actions the GUI handles itself (the palette, settings, the
    /// notification panel) and unknown ones change nothing here.
    pub fn dispatch_action(&mut self, action: &str) -> (b: bool)
        requires
            old(self).wf(),
            old(self).state.next_id() + 3 <= u64::MAX,
        ensures
            final(self).wf(),
            dispatched(*old(self), *final(self), action@, b),
    {
        let ghost pre = *self;
        let b = if crate::text::text_eq(action, "newTab") {
            match self.state.active_id() {
                Some(w) => {
                    let t = self.state.add_tab(w);
                    t.is_some()
                },
                None => false,
            }
        } else if crate::text::text_eq(action, "closeTab") {
            let target = match self.state.active_workspace() {
                Some(w) => match w.active_tab {
                    Some(t) => Some((w.id, t)),
                    None => None,
                },
                None => None,
            };
            assert(target == active_tab_target(pre.state));
            match target {
                Some((w, t)) => self.state.close_tab(w, t),
                None => false,
            }
        } else if crate::text::text_eq(action, "newWorkspace") {
            self.state.new_workspace("workspace");
            true
        } else if crate::text::text_eq(action, "splitHorizontal") {
            self.state.split_focused(Orientation::Horizontal).is_some()
        } else if crate::text::text_eq(action, "splitVertical") {
            self.state.split_focused(Orientation::Vertical).is_some()
        } else if crate::text::text_eq(action, "openBrowser") {
            self.state.split_focused_browser("https://example.com", Orientation::Horizontal).is_some()
        } else if crate::text::text_eq(action, "closePane") {
            match self.state.focused_pane() {
                Some(p) => self.state.close_pane(p),
                None => false,
            }
        } else {
            match Self::action_dir_of(action) {
                Some(d) => self.state.focus_dir(d),
                None => if crate::text::text_eq(action, "reopenClosedTab") {
                    self.state.reopen_closed_tab().is_some()
                } else if crate::text::text_eq(action, "jumpToLatestNotification") {
                    let target = match self.state.latest_unread() {
                        Some(n) => Some(n.pane),
                        None => None,
                    };
                    assert(target == latest_unread_pane(pre.state));
                    match target {
                        Some(p) => self.state.focus_pane(p),
                        None => false,
                    }
                } else {
                    false
                },
            }
        };
        proof {
            if self.state.same_panes(pre.state) {
                lemma_same_panes(self.state, pre.state);
            }
            assert(self.runtime_seq() == pre.runtime_seq());
            assert(self.wf());
        }
        b
    }
}

/// An emulator with its pending bell, title and notifications taken.
pub open spec fn signals_taken(v: crate::term::TermView) -> crate::term::TermView {
    crate::term::TermView { bell: false, title: None, notifications: Seq::empty(), ..v }
}

/// The window titles the runtimes hold, with their panes, in runtime order.
pub open spec fn pending_titles(rts: Seq<PaneRuntime>) -> Seq<(PaneId, Seq<char>)>
    decreases rts.len(),
{
    if rts.len() == 0 {
        Seq::empty()
    } else {
        let r = rts.last();
        pending_titles(rts.drop_last()) + match r.term@.title {
            Some(t) => seq![(r.pane, t)],
            None => Seq::empty(),
        }
    }
}

/// The (pane, title, body) notifications the runtimes hold, in runtime order.
pub open spec fn pending_notes(rts: Seq<PaneRuntime>) -> Seq<(PaneId, Seq<char>, Seq<char>)>
    decreases rts.len(),
{
    if rts.len() == 0 {
        Seq::empty()
    } else {
        let r = rts.last();
        pending_notes(rts.drop_last()) + r.term@.notifications.map_values(
            |n: (Seq<char>, Seq<char>)| (r.pane, n.0, n.1),
        )
    }
}

/// The bells the runtimes hold, as notifications, in runtime order.
pub open spec fn pending_bells(rts: Seq<PaneRuntime>) -> Seq<(PaneId, Seq<char>, Seq<char>)>
    decreases rts.len(),
{
    if rts.len() == 0 {
        Seq::empty()
    } else {
        let r = rts.last();
        pending_bells(rts.drop_last()) + if r.term@.bell {
            seq![(r.pane, "Bell"@, "terminal bell"@)]
        } else {
            Seq::empty()
        }
    }
}

/// One window title applied: a non-empty title becomes the pane's title.
pub open spec fn title_step(a: AppState, b: AppState, p: PaneId, t: Seq<char>) -> bool {
    if t.len() == 0 {
        b == a
    } else {
        &&& b.panes_wf()
        &&& b.same_ws(a) && b.same_active(a) && b.same_feed(a) && b.same_history(a)
        &&& if a.pane_map().contains_key(p) {
            &&& b.pane_map() == a.pane_map().insert(p, crate::pane::Pane { title: b.pane_map()[p].title, ..a.pane_map()[p] })
            &&& b.pane_map()[p].title@ == t
        } else {
            b.pane_map() == a.pane_map()
        }
    }
}

/// `states` runs from `a` to `b`, each step applying the next title of `ts`.
pub open spec fn title_run(states: Seq<AppState>, a: AppState, b: AppState, ts: Seq<(PaneId, Seq<char>)>) -> bool {
    &&& states.len() == ts.len() + 1
    &&& states[0] == a
    &&& states.last() == b
    &&& forall|i: int| 0 <= i < ts.len() ==> title_step(#[trigger] states[i], states[i + 1], ts[i].0, ts[i].1)
}

/// The titles `ts` applied in order, taking `a` to `b`.
pub open spec fn titles_applied(a: AppState, b: AppState, ts: Seq<(PaneId, Seq<char>)>) -> bool {
    exists|states: Seq<AppState>| #[trigger] title_run(states, a, b, ts)
}

/// Notification `n` raised at time `now`, taking `m` to `b` (dropped once
/// notification ids are exhausted).
pub open spec fn note_step(m: AppState, b: AppState, n: (PaneId, Seq<char>, Seq<char>), now: u64) -> bool {
    if m.feed().next_id_value() < u64::MAX {
        exists|r: Option<u64>| #[trigger] notify_effect(m, b, n.0, n.1, n.2, now, r)
    } else {
        b == m
    }
}

/// `states` runs from `a` to `b`, each step raising the next notification
/// of `ns`.
pub open spec fn note_run(
    states: Seq<AppState>,
    a: AppState,
    b: AppState,
    ns: Seq<(PaneId, Seq<char>, Seq<char>)>,
    now: u64,
) -> bool {
    &&& states.len() == ns.len() + 1
    &&& states[0] == a
    &&& states.last() == b
    &&& forall|i: int| 0 <= i < ns.len() ==> note_step(#[trigger] states[i], states[i + 1], ns[i], now)
}

/// The notifications `ns` raised in order at time `now`, taking `a` to `b`.
pub open spec fn notes_raised(a: AppState, b: AppState, ns: Seq<(PaneId, Seq<char>, Seq<char>)>, now: u64) -> bool {
    exists|states: Seq<AppState>| #[trigger] note_run(states, a, b, ns, now)
}

/// What [`Engine::collect_signals`] does.
pub open spec fn signals_collected(pre: Engine, post: Engine, now: u64) -> bool {
    let rts = pre.runtime_seq();
    &&& post.alerts == pre.alerts
    &&& post.runtime_seq().len() == rts.len()
    &&& forall|i: int| 0 <= i < rts.len() ==> {
        &&& (#[trigger] post.runtime_seq()[i]).pane == rts[i].pane
        &&& post.runtime_seq()[i].exited == rts[i].exited
        &&& post.runtime_seq()[i].term@ == signals_taken(rts[i].term@)
    }
    &&& if !pre.alerts.enabled {
        titles_applied(pre.state, post.state, pending_titles(rts))
    } else if !pre.alerts.ring_on_bell {
        exists|s1: AppState| #[trigger] titles_applied(pre.state, s1, pending_titles(rts))
            && notes_raised(s1, post.state, pending_notes(rts), now)
    } else {
        exists|s1: AppState, s2: AppState| #[trigger] titles_applied(pre.state, s1, pending_titles(rts))
            && #[trigger] notes_raised(s1, s2, pending_notes(rts), now)
            && notes_raised(s2, post.state, pending_bells(rts), now)
    }
}

impl Engine {
    /// Raise the notifications `ns` in order at time `now`.
    fn raise_all(&mut self, ns: &Vec<(PaneId, String, String)>, now: u64)
        requires
            old(self).wf(),
        ensures
            final(self).wf(),
            final(self).runtime_seq() == old(self).runtime_seq(),
            final(self).alerts == old(self).alerts,
            notes_raised(old(self).state, final(self).state, ns@.map_values(|x: (PaneId, String, String)| (x.0, x.1@, x.2@)), now),
    {
        let ghost pre = *self;
        let ghost view = ns@.map_values(|x: (PaneId, String, String)| (x.0, x.1@, x.2@));
        let ghost mut states: Seq<AppState> = seq![self.state];
        let mut k: usize = 0;
        while k < ns.len()
            invariant
                k <= ns@.len(),
                self.wf(),
                self.runtime_seq() == pre.runtime_seq(),
                self.alerts == pre.alerts,
                view == ns@.map_values(|x: (PaneId, String, String)| (x.0, x.1@, x.2@)),
                note_run(states, pre.state, self.state, view.take(k as int), now),
            decreases ns@.len() - k,
        {
            let ghost mid = self.state;
            let (p, t, b) = (ns[k].0, ns[k].1.as_str(), ns[k].2.as_str());
            if self.state.feed_next_id() < u64::MAX {
                let r = self.state.notify(p, t, b, now);
                assert(notify_effect(mid, self.state, view[k as int].0, view[k as int].1, view[k as int].2, now, r));
            }
            proof {
                assert(note_step(mid, self.state, view[k as int], now));
                let s2 = states.push(self.state);
                assert forall|j: int| 0 <= j < k + 1 implies note_step(#[trigger] s2[j], s2[j + 1], view.take(k + 1)[j], now) by {
                    if j < k {
                        assert(s2[j] == states[j] && s2[j + 1] == states[j + 1]);
                        assert(note_step(states[j], states[j + 1], view.take(k as int)[j], now));
                    } else {
                        assert(s2[j] == mid);
                    }
                }
                states = s2;
                if self.state.same_panes(mid) {
                    lemma_same_panes(self.state, mid);
                }
                assert(self.runtime_seq() == pre.runtime_seq());
                assert(self.wf());
            }
            k = k + 1;
        }
        proof {
            assert(view.take(k as int) =~= view);
            assert(note_run(states, pre.state, self.state, view, now));
        }
    }

    /// Apply the window titles `ts` in order: a non-empty one becomes its
    /// pane's title.
    fn apply_titles(&mut self, ts: &Vec<(PaneId, String)>)
        requires
            old(self).wf(),
        ensures
            final(self).wf(),
            final(self).runtime_seq() == old(self).runtime_seq(),
            final(self).alerts == old(self).alerts,
            titles_applied(old(self).state, final(self).state, ts@.map_values(|x: (PaneId, String)| (x.0, x.1@))),
    {
        let ghost pre = *self;
        let ghost view = ts@.map_values(|x: (PaneId, String)| (x.0, x.1@));
        let ghost mut states: Seq<AppState> = seq![self.state];
        let mut k: usize = 0;
        while k < ts.len()
            invariant
                k <= ts@.len(),
                self.wf(),
                self.runtime_seq() == pre.runtime_seq(),
                self.alerts == pre.alerts,
                view == ts@.map_values(|x: (PaneId, String)| (x.0, x.1@)),
                title_run(states, pre.state, self.state, view.take(k as int)),
            decreases ts@.len() - k,
        {
            let ghost mid = self.state;
            if !ts[k].1.as_str().is_empty() {
                self.state.set_pane_title(ts[k].0, ts[k].1.clone());
            }
            proof {
                assert(title_step(mid, self.state, view[k as int].0, view[k as int].1));
                let s2 = states.push(self.state);
                assert forall|j: int| 0 <= j < k + 1 implies title_step(#[trigger] s2[j], s2[j + 1], view.take(k + 1)[j].0, view.take(k + 1)[j].1) by {
                    if j < k {
                        assert(s2[j] == states[j] && s2[j + 1] == states[j + 1]);
                        assert(title_step(states[j], states[j + 1], view.take(k as int)[j].0, view.take(k as int)[j].1));
                    } else {
                        assert(s2[j] == mid);
                    }
                }
                states = s2;
                assert(self.runtime_seq() == pre.runtime_seq());
                assert(self.wf());
            }
            k = k + 1;
        }
        proof {
            assert(view.take(k as int) =~= view);
            assert(title_run(states, pre.state, self.state, view));
        }
    }

    /// Take every emulator's pending signals: window titles become pane
    /// titles (non-empty ones); when notifications are enabled, OSC
    /// notifications, and with `ring_on_bell` bells, are raised on their
    /// panes at time `now_ms`.
    pub fn collect_signals(&mut self, now_ms: u64)
        requires
            old(self).wf(),
        ensures
            final(self).wf(),
            signals_collected(*old(self), *final(self), now_ms),
    {
        let ghost pre = *self;
        let ghost rts = pre.runtime_seq();
        let mut titles: Vec<(PaneId, String)> = Vec::new();
        let mut notes: Vec<(PaneId, String, String)> = Vec::new();
        let mut bells: Vec<(PaneId, String, String)> = Vec::new();
        let n = self.runtimes.len();
        let mut i: usize = 0;
        while i < n
            invariant
                n == rts.len(),
                rts == pre.runtime_seq(),
                pre.wf(),
                self.runtimes@.len() == n,
                i <= n,
                self.state == pre.state,
                self.alerts == pre.alerts,
                forall|j: int| 0 <= j < i ==> {
                    &&& (#[trigger] self.runtimes@[j]).pane == rts[j].pane
                    &&& self.runtimes@[j].exited == rts[j].exited
                    &&& self.runtimes@[j].term@ == signals_taken(rts[j].term@)
                    &&& self.runtimes@[j].term.wf()
                },
                forall|j: int| i <= j < n ==> #[trigger] self.runtimes@[j] == rts[j],
                titles@.map_values(|x: (PaneId, String)| (x.0, x.1@)) == pending_titles(rts.take(i as int)),
                notes@.map_values(|x: (PaneId, String, String)| (x.0, x.1@, x.2@)) == pending_notes(rts.take(i as int)),
                bells@.map_values(|x: (PaneId, String, String)| (x.0, x.1@, x.2@)) == pending_bells(rts.take(i as int)),
            decreases n - i,
        {
            let ghost t0 = titles@;
            let ghost n0 = notes@;
            let ghost b0 = bells@;
            let mut rt = self.runtimes.remove(i);
            assert(rt == rts[i as int]);
            let bell = rt.term.take_bell();
            let title = rt.term.take_title();
            let ns = rt.term.take_notifications();
            let pane = rt.pane;
            proof {
                assert(rt.term@ == signals_taken(rts[i as int].term@));
            }
            self.runtimes.insert(i, rt);
            if bell {
                bells.push((pane, "Bell".to_owned(), "terminal bell".to_owned()));
            }
            match title {
                Some(t) => titles.push((pane, t)),
                None => {},
            }
            let mut k: usize = 0;
            while k < ns.len()
                invariant
                    k <= ns@.len(),
                    notes@.map_values(|x: (PaneId, String, String)| (x.0, x.1@, x.2@)) == n0.map_values(
                        |x: (PaneId, String, String)| (x.0, x.1@, x.2@),
                    ) + ns@.take(k as int).map_values(|p: (String, String)| (pane, p.0@, p.1@)),
                decreases ns@.len() - k,
            {
                let ghost before = notes@;
                let c0 = ns[k].0.clone();
                let c1 = ns[k].1.clone();
                notes.push((pane, c0, c1));
                proof {
                    let f = |x: (PaneId, String, String)| (x.0, x.1@, x.2@);
                    let g = |p: (String, String)| (pane, p.0@, p.1@);
                    assert(ns@.take(k + 1) =~= ns@.take(k as int).push(ns@[k as int]));
                    assert(notes@.map_values(f) =~= before.map_values(f).push(f(notes@.last())));
                    assert(ns@.take(k + 1).map_values(g) =~= ns@.take(k as int).map_values(g).push(g(ns@[k as int])));
                    assert(f(notes@.last()) == g(ns@[k as int]));
                }
                k = k + 1;
            }
            proof {
                let tk = rts.take(i + 1);
                assert(tk.drop_last() =~= rts.take(i as int));
                assert(tk.last() == rts[i as int]);
                assert(ns@.take(k as int) =~= ns@);
                let nv = rts[i as int].term@.notifications;
                assert(ns@.map_values(|p: (String, String)| (pane, p.0@, p.1@)) =~= nv.map_values(
                    |m: (Seq<char>, Seq<char>)| (pane, m.0, m.1),
                )) by {
                    let plain = ns@.map_values(|p: (String, String)| (p.0@, p.1@));
                    let lhs = ns@.map_values(|p: (String, String)| (pane, p.0@, p.1@));
                    let rhs = nv.map_values(|m: (Seq<char>, Seq<char>)| (pane, m.0, m.1));
                    assert(plain == nv);
                    assert forall|q: int| 0 <= q < nv.len() implies #[trigger] lhs[q] == rhs[q] by {
                        assert(plain[q] == nv[q]);
                    }
                }
                assert(titles@.map_values(|x: (PaneId, String)| (x.0, x.1@)) =~= pending_titles(tk));
                assert(bells@.map_values(|x: (PaneId, String, String)| (x.0, x.1@, x.2@)) =~= pending_bells(tk));
                assert(notes@.map_values(|x: (PaneId, String, String)| (x.0, x.1@, x.2@)) =~= pending_notes(tk));
            }
            i = i + 1;
        }
        proof {
            assert(rts.take(n as int) =~= rts);
            assert(self.wf());
        }
        let ghost taken = *self;
        self.apply_titles(&titles);
        if self.alerts.enabled {
            let ghost s1 = self.state;
            self.raise_all(&notes, now_ms);
            if self.alerts.ring_on_bell {
                let ghost s2 = self.state;
                self.raise_all(&bells, now_ms);
                assert(titles_applied(pre.state, s1, pending_titles(rts)));
                assert(notes_raised(s1, s2, pending_notes(rts), now_ms));
            } else {
                assert(titles_applied(pre.state, s1, pending_titles(rts)));
            }
        }
    }
}

impl Engine {
    /// Split the focused pane (the caller then spawns its shell).
    pub fn split_focused(&mut self, orientation: Orientation) -> (r: Option<PaneId>)
        requires
            old(self).wf(),
            old(self).state.next_id() < u64::MAX,
        ensures
            final(self).wf(),
            same_runtimes(*old(self), *final(self)),
            split_focused_effect(old(self).state, final(self).state, orientation, r),
    {
        let r = self.state.split_focused(orientation);
        proof {
            assert(self.runtime_seq() == old(self).runtime_seq());
        }
        r
    }

    /// Open a tab in the active workspace.
    pub fn new_tab(&mut self) -> (r: Option<crate::ids::TabId>)
        requires
            old(self).wf(),
            old(self).state.next_id() + 2 <= u64::MAX,
        ensures
            final(self).wf(),
            same_runtimes(*old(self), *final(self)),
            match old(self).state.active_ws() {
                Some(w) => add_tab_effect(old(self).state, final(self).state, w, r)
                    && final(self).state.closed_seq() == old(self).state.closed_seq(),
                None => r is None && final(self).state == old(self).state,
            },
    {
        let r = match self.state.active_id() {
            Some(w) => self.state.add_tab(w),
            None => None,
        };
        proof {
            assert(self.runtime_seq() == old(self).runtime_seq());
        }
        r
    }

    /// Create a workspace titled `title`.
    pub fn new_workspace(&mut self, title: &str) -> (id: WorkspaceId)
        requires
            old(self).wf(),
            old(self).state.next_id() + 3 <= u64::MAX,
        ensures
            final(self).wf(),
            same_runtimes(*old(self), *final(self)),
            new_workspace_effect(old(self).state, final(self).state, title@, id),
    {
        let id = self.state.new_workspace(title);
        proof {
            assert(self.runtime_seq() == old(self).runtime_seq());
        }
        id
    }

    /// Close a pane (the caller then drops its runtime).
    pub fn close_pane(&mut self, pane: PaneId) -> (b: bool)
        requires
            old(self).wf(),
        ensures
            final(self).wf(),
            same_runtimes(*old(self), *final(self)),
            close_pane_effect(old(self).state, final(self).state, pane, b),
    {
        let b = self.state.close_pane(pane);
        proof {
            assert(self.runtime_seq() == old(self).runtime_seq());
        }
        b
    }

    /// Split the focused pane into a browser pane showing `url`.
    pub fn open_browser(&mut self, url: &str, orientation: Orientation) -> (r: Option<PaneId>)
        requires
            old(self).wf(),
            old(self).state.next_id() < u64::MAX,
        ensures
            final(self).wf(),
            same_runtimes(*old(self), *final(self)),
            split_focused_browser_effect(old(self).state, final(self).state, url@, orientation, r),
    {
        let r = self.state.split_focused_browser(url, orientation);
        proof {
            assert(self.runtime_seq() == old(self).runtime_seq());
        }
        r
    }

    /// Point a browser pane at `url`.
    pub fn navigate_browser(&mut self, pane: PaneId, url: &str) -> (b: bool)
        requires
            old(self).wf(),
        ensures
            final(self).wf(),
            same_runtimes(*old(self), *final(self)),
            set_browser_url_effect(old(self).state, final(self).state, pane, url@, b),
    {
        let b = self.state.set_browser_url(pane, url);
        proof {
            assert(self.runtime_seq() == old(self).runtime_seq());
        }
        b
    }

    /// Resize a pane's grid to `rows` x `cols` (each at least 1); whether
    /// it has a runtime. The caller resizes the PTY when it does. A grid
    /// too large to hold is left as it is.
    pub fn resize_pane(&mut self, pane: PaneId, rows: u16, cols: u16) -> (b: bool)
        requires
            old(self).wf(),
        ensures
            final(self).wf(),
            final(self).state == old(self).state,
            final(self).alerts == old(self).alerts,
            b == rt_pos(old(self).runtime_seq(), pane) is Some,
            final(self).runtime_seq().len() == old(self).runtime_seq().len(),
            forall|j: int| 0 <= j < old(self).runtime_seq().len() && rt_pos(old(self).runtime_seq(), pane) != Some(j)
                ==> #[trigger] final(self).runtime_seq()[j] == old(self).runtime_seq()[j],
            b ==> ({
                let i = rt_pos(old(self).runtime_seq(), pane)->0;
                let r: u16 = if rows < 1 { 1 } else { rows };
                let c: u16 = if cols < 1 { 1 } else { cols };
                let o = old(self).runtime_seq()[i];
                let n = final(self).runtime_seq()[i];
                &&& n.pane == o.pane && n.exited == o.exited
                &&& n.term@ == if fits(r as nat, c as nat) { term_resized(o.term@, r as nat, c as nat) } else { o.term@ }
            }),
    {
        let r: u16 = if rows < 1 { 1 } else { rows };
        let c: u16 = if cols < 1 { 1 } else { cols };
        match self.rt_index(pane) {
            Some(i) => {
                assert((r as u64) * (c as u64) <= 0xffff_ffff) by (nonlinear_arith)
                    requires
                        r <= 0xffff,
                        c <= 0xffff,
                ;
                if (r as u64) * (c as u64) <= 0x7fff_ffff {
                    let mut rt = self.runtimes.remove(i);
                    rt.term.resize(r as usize, c as usize);
                    self.runtimes.insert(i, rt);
                }
                proof {
                    assert forall|j: int| 0 <= j < self.runtime_seq().len() && j != i implies #[trigger] self.runtime_seq()[j] == old(self).runtime_seq()[j] by {}
                }
                true
            },
            None => false,
        }
    }

    /// The pane regions of the active tab within a `RATIO_ONE`-sided square,
    /// what the UI positions panes with (in hundredths of a percent).
    pub fn active_layout(&self) -> (v: Vec<(PaneId, crate::split::Rect)>)
        ensures
            v@ == (match active_tab_of(self.state) {
                Some(t) => t.tree.layout_of(unit_square()),
                None => Seq::empty(),
            }),
    {
        match self.state.active_workspace() {
            Some(w) => match w.active_tab() {
                Some(t) => {
                    t.tree.layout(crate::split::Rect::new(0, 0, crate::split::RATIO_ONE as u64, crate::split::RATIO_ONE as u64))
                },
                None => Vec::new(),
            },
            None => Vec::new(),
        }
    }

    /// The ring of `pane` (idle when there is no such pane).
    pub fn pane_ring(&self, pane: PaneId) -> (r: crate::notification::RingState)
        requires
            self.wf(),
        ensures
            r == (if self.state.pane_map().contains_key(pane) {
                self.state.pane_map()[pane].ring
            } else {
                crate::notification::RingState::Idle
            }),
    {
        match self.state.pane(pane) {
            Some(p) => p.ring,
            None => crate::notification::RingState::Idle,
        }
    }

    /// The notification feed, oldest first.
    pub fn notifications(&self) -> (s: &[Notification])
        ensures
            s@ == self.state.feed().entry_seq(),
    {
        self.state.notification_entries()
    }

    /// Mark every notification read; the number that were unread.
    pub fn mark_all_read(&mut self) -> (n: usize)
        requires
            old(self).wf(),
        ensures
            final(self).wf(),
            same_runtimes(*old(self), *final(self)),
            final(self).state.feed().entry_seq() == crate::notification::mark_where(
                old(self).state.feed().entry_seq(),
                |x: Notification| true,
            ),
            n == crate::notification::count_unread(old(self).state.feed().entry_seq()),
            final(self).state.same_ws(old(self).state) && final(self).state.same_active(old(self).state)
                && final(self).state.same_panes(old(self).state) && final(self).state.same_history(old(self).state),
    {
        let n = self.state.mark_all_read();
        proof {
            lemma_same_panes(self.state, old(self).state);
            assert(self.runtime_seq() == old(self).runtime_seq());
        }
        n
    }
}

/// The active tab of the active workspace.
pub open spec fn active_tab_of(st: AppState) -> Option<crate::tab::Tab> {
    match st.active_ws() {
        Some(a) => match ws_pos(st.ws_seq(), a) {
            Some(wi) => match crate::workspace::active_tab_pos(st.ws_seq()[wi]) {
                Some(ti) => Some(st.ws_seq()[wi].tabs@[ti]),
                None => None,
            },
            None => None,
        },
        None => None,
    }
}

/// The square the UI lays panes out in.
pub open spec fn unit_square() -> crate::split::Rect {
    crate::split::Rect { x: 0, y: 0, w: crate::split::RATIO_ONE as u64, h: crate::split::RATIO_ONE as u64 }
}

/// `b` shows the same topology, panes, notifications and closed-tab
/// history as `a` (the id counter aside).
pub open spec fn observed_same(a: AppState, b: AppState) -> bool {
    &&& b.ws_seq() == a.ws_seq()
    &&& b.active_ws() == a.active_ws()
    &&& b.pane_map() == a.pane_map()
    &&& b.feed().entry_seq() == a.feed().entry_seq()
    &&& b.feed().next_id_value() == a.feed().next_id_value()
    &&& b.closed_seq() == a.closed_seq()
}

proof fn lemma_mark_none(s: Seq<Notification>, id: u64)
    requires
        !(exists|i: int| 0 <= i < s.len() && (#[trigger] s[i]).id == id),
    ensures
        crate::notification::mark_where(s, |n: Notification| n.id == id) == s,
{
    assert(crate::notification::mark_where(s, |n: Notification| n.id == id) =~= s);
}

/// A request the engine refuses (answers with an error) changes nothing
/// that can be observed: not the topology, the panes, the notifications,
/// the closed-tab history nor the emulators.
pub proof fn law_refused_request_changes_nothing(pre: Engine, post: Engine, req: Request, now: u64, s: Step)
    requires
        handled(pre, post, req, now, s),
        s matches Step::Reply(Response::Error { .. }),
    ensures
        observed_same(pre.state, post.state),
        post.runtime_seq() == pre.runtime_seq(),
{
    let st = pre.state;
    let st2 = post.state;
    crate::workspace::lemma_same_parts(st, st2);
    match req {
        Request::Focus { target } => {
            match target {
                Target::Workspace(w) => {
                    let b = choose|b: bool| #[trigger] focus_workspace_effect(st, st2, w, b) && done_or(b, s, "focus target not found"@);
                        }
                Target::Tab(t) => {
                    if let Some(i) = ws_with_tab(st.ws_seq(), t) {
                        let b = choose|b: bool| #[trigger] focus_tab_effect(st, st2, st.ws_seq()[i].id, t, b) && done_or(b, s, "focus target not found"@);
                                } else {
                        assert(st2 == st);
                                }
                }
                Target::Pane(p) => {
                    let b = choose|b: bool| #[trigger] focus_pane_effect(st, st2, p, b) && done_or(b, s, "focus target not found"@);
                        }
            }
        },
        Request::FocusDir { dir } => {
            let b = choose|b: bool| #[trigger] focus_dir_effect(st, st2, focus_dir_of(dir), b) && done_or(b, s, "no pane in that direction"@);
        },
        Request::NewTab { workspace } => {
            if let Some(w) = new_tab_target(st, workspace) {
                let r = choose|r: Option<crate::ids::TabId>| #[trigger] add_tab_effect(st, st2, w, r) && st2.panes_wf()
                    && st2.closed_seq() == st.closed_seq() && created_or(raw_tab(r), s, "no workspace"@);
            }
        },
        Request::Split { pane, orientation } => {
            if let Some(p) = target_of(st, pane) {
                let r = choose|r: Option<PaneId>| #[trigger] split_pane_effect(st, st2, p, orientation_of(orientation), r)
                    && created_or(raw_pane(r), s, "could not split"@);
            }
        },
        Request::ClosePane { pane } => {
            let b = choose|b: bool| #[trigger] close_pane_effect(st, st2, pane, b) && done_or(b, s, "no such pane"@);
        },
        Request::Notify { pane, title, body } => {
            let r = choose|r: Option<u64>| #[trigger] notify_effect(st, st2, pane, title@, body@, now, r) && done_or(r is Some, s, "no such pane"@);
        },
        Request::RenameTab { tab, title } => {
            let b = choose|b: bool| #[trigger] rename_tab_effect(st, st2, tab, title@, b) && done_or(b, s, "no such tab"@);
        },
        Request::RenameWorkspace { workspace, title } => {
            let b = choose|b: bool| #[trigger] rename_workspace_effect(st, st2, workspace, title@, b) && done_or(b, s, "no such workspace"@);
        },
        Request::ReorderTab { tab, index } => {
            if let Some(i) = ws_with_tab(st.ws_seq(), tab) {
                let b = choose|b: bool| #[trigger] reorder_tab_effect(st, st2, st.ws_seq()[i].id, tab, index, b) && done_or(b, s, "no such tab"@);
            }
        },
        Request::OpenBrowser { url, orientation } => {
            let r = choose|r: Option<PaneId>| #[trigger] split_focused_browser_effect(st, st2, url@, orientation_of(orientation), r)
                && created_or(raw_pane(r), s, "could not open browser"@);
        },
        Request::NavigateBrowser { pane, url } => {
            let b = choose|b: bool| #[trigger] set_browser_url_effect(st, st2, pane, url@, b) && done_or(b, s, "not a browser pane"@);
        },
        Request::CloseWorkspace { workspace } => {
            let b = choose|b: bool| #[trigger] close_workspace_effect(st, st2, workspace, b) && done_or(b, s, "no such workspace"@);
        },
        Request::ReorderWorkspace { workspace, index } => {
            let b = choose|b: bool| #[trigger] reorder_workspace_effect(st, st2, workspace, index, b) && done_or(b, s, "no such workspace"@);
        },
        Request::Equalize => {
            let b = choose|b: bool| #[trigger] equalize_active_effect(st, st2, b) && done_or(b, s, "no active tab"@);
        },
        Request::ToggleZoom => {
            let b = choose|b: bool| #[trigger] toggle_zoom_effect(st, st2, b) && done_or(b, s, "no active tab"@);
        },
        Request::NextTab => {
            let b = choose|b: bool| #[trigger] focus_adjacent_tab_effect(st, st2, true, b) && done_or(b, s, "no other tab"@);
        },
        Request::PrevTab => {
            let b = choose|b: bool| #[trigger] focus_adjacent_tab_effect(st, st2, false, b) && done_or(b, s, "no other tab"@);
        },
        Request::MarkNotificationRead { id } => {
            let b = choose|b: bool| #[trigger] mark_notification_read_effect(st, st2, id, b) && done_or(b, s, "no such notification"@);
            lemma_mark_none(st.feed().entry_seq(), id);
        },
        Request::DismissNotification { id } => {
            let b = choose|b: bool| #[trigger] dismiss_notification_effect(st, st2, id, b) && done_or(b, s, "no such notification"@);
            let e = st.feed().entry_seq();
            crate::workspace::lemma_filter_all(e, |n: Notification| n.id != id);
        },
        _ => {},
    }
}


/// The keyboard action that splits the focused pane the way `d` names.
pub open spec fn split_action(d: SplitDir) -> Seq<char> {
    match d {
        SplitDir::Horizontal => "splitHorizontal"@,
        SplitDir::Vertical => "splitVertical"@,
    }
}

/// The keyboard action that moves focus the way `d` names.
pub open spec fn focus_action(d: Dir) -> Seq<char> {
    match d {
        Dir::Left => "focusLeft"@,
        Dir::Right => "focusRight"@,
        Dir::Up => "focusUp"@,
        Dir::Down => "focusDown"@,
    }
}

/// `s` reports that something was created.
pub open spec fn is_created(s: Step) -> bool {
    s matches Step::Reply(Response::Created { .. })
}

/// A split asked for by keyboard and one asked for over the control
/// socket without naming a pane do the same thing: each splits the focused
/// pane as [`AppState::split_focused`] does, leaves the emulators alone, and
/// reports success exactly when the other does.
pub proof fn law_split_same_from_keyboard_and_socket(
    pre: Engine,
    by_key: Engine,
    by_socket: Engine,
    d: SplitDir,
    b: bool,
    now: u64,
    s: Step,
)
    requires
        pre.wf(),
        dispatched(pre, by_key, split_action(d), b),
        handled(pre, by_socket, Request::Split { pane: None, orientation: d }, now, s),
    ensures
        same_runtimes(pre, by_key),
        same_runtimes(pre, by_socket),
        exists|r: Option<PaneId>| #[trigger] split_focused_effect(pre.state, by_key.state, orientation_of(d), r),
        exists|r: Option<PaneId>| #[trigger] split_focused_effect(pre.state, by_socket.state, orientation_of(d), r),
        b == is_created(s),
{
    reveal_strlit("splitHorizontal");
    reveal_strlit("splitVertical");
    reveal_strlit("newTab");
    reveal_strlit("closeTab");
    reveal_strlit("newWorkspace");
    let st = pre.state;
    let o = orientation_of(d);
    match d {
        SplitDir::Horizontal => {
            assert("splitHorizontal"@.len() == 15);
            assert("splitVertical"@.len() == 13);
            assert(split_action(d) != "splitVertical"@);
        },
        SplitDir::Vertical => assert(split_action(d)[5] != "splitHorizontal"@[5]),
    }
    let r1 = choose|r: Option<PaneId>| #[trigger] split_focused_effect(st, by_key.state, o, r) && b == r is Some;
    match st.focused_of() {
        Some(p) => {
            let r2 = choose|r: Option<PaneId>| #[trigger] split_pane_effect(st, by_socket.state, p, o, r)
                && created_or(raw_pane(r), s, "could not split"@);
            assert(split_focused_effect(st, by_socket.state, o, r2));
            assert(r1 == r2);
        },
        None => {
            crate::workspace::lemma_unchanged_refl(st);
            assert(split_focused_effect(st, by_socket.state, o, None));
        },
    }
}

/// Moving focus by keyboard and over the control socket do the same thing:
/// each moves focus as [`AppState::focus_dir`] does, leaves the emulators
/// alone, and reports success exactly when the other does.
pub proof fn law_focus_dir_same_from_keyboard_and_socket(
    pre: Engine,
    by_key: Engine,
    by_socket: Engine,
    d: Dir,
    b: bool,
    now: u64,
    s: Step,
)
    requires
        dispatched(pre, by_key, focus_action(d), b),
        handled(pre, by_socket, Request::FocusDir { dir: d }, now, s),
    ensures
        same_runtimes(pre, by_key),
        same_runtimes(pre, by_socket),
        exists|c: bool| #[trigger] focus_dir_effect(pre.state, by_key.state, focus_dir_of(d), c),
        exists|c: bool| #[trigger] focus_dir_effect(pre.state, by_socket.state, focus_dir_of(d), c),
        b == (s == Step::Reply(Response::Done)),
{
    reveal_strlit("focusLeft");
    reveal_strlit("focusRight");
    reveal_strlit("focusUp");
    reveal_strlit("focusDown");
    reveal_strlit("newTab");
    reveal_strlit("closeTab");
    reveal_strlit("newWorkspace");
    reveal_strlit("splitHorizontal");
    reveal_strlit("splitVertical");
    reveal_strlit("openBrowser");
    reveal_strlit("closePane");
    assert("newTab"@.len() == 6 && "closeTab"@.len() == 8 && "newWorkspace"@.len() == 12);
    assert("splitHorizontal"@.len() == 15 && "splitVertical"@.len() == 13 && "openBrowser"@.len() == 11);
    assert("closePane"@.len() == 9 && "focusLeft"@.len() == 9 && "focusRight"@.len() == 10);
    assert("focusUp"@.len() == 7 && "focusDown"@.len() == 9);
    assert("focusLeft"@[0] != "closePane"@[0]);
    assert("focusDown"@[0] != "closePane"@[0]);
    assert("focusDown"@[5] != "focusLeft"@[5]);
    assert(action_dir(focus_action(d)) == Some(focus_dir_of(d)));
    let st = pre.state;
    let c1 = choose|c: bool| #[trigger] focus_dir_effect(st, by_key.state, focus_dir_of(d), c) && b == c;
    let c2 = choose|c: bool| #[trigger] focus_dir_effect(st, by_socket.state, focus_dir_of(d), c)
        && done_or(c, s, "no pane in that direction"@);
    assert(c1 == c2);
    if !c2 {
        reveal_strlit("no pane in that direction");
    }
}

proof fn lemma_action_names()
    ensures
        "newTab"@.len() == 6,
        "closeTab"@.len() == 8,
        "newWorkspace"@.len() == 12,
        "splitHorizontal"@.len() == 15,
        "splitVertical"@.len() == 13,
        "openBrowser"@.len() == 11,
        "closePane"@.len() == 9,
        "closeTab"@[0] != "newTab"@[0],
{
    reveal_strlit("newTab");
    reveal_strlit("closeTab");
    reveal_strlit("newWorkspace");
    reveal_strlit("splitHorizontal");
    reveal_strlit("splitVertical");
    reveal_strlit("openBrowser");
    reveal_strlit("closePane");
}

/// Opening a tab by keyboard and over the control socket without naming a
/// workspace do the same thing: each adds a tab to the active workspace as
/// [`AppState::add_tab`] does (nothing when there is no active workspace),
/// leaves the emulators alone, and reports success exactly when the other
/// does.
pub proof fn law_new_tab_same_from_keyboard_and_socket(
    pre: Engine,
    by_key: Engine,
    by_socket: Engine,
    b: bool,
    now: u64,
    s: Step,
)
    requires
        dispatched(pre, by_key, "newTab"@, b),
        handled(pre, by_socket, Request::NewTab { workspace: None }, now, s),
    ensures
        same_runtimes(pre, by_key),
        same_runtimes(pre, by_socket),
        match pre.state.active_ws() {
            Some(w) => (exists|r: Option<crate::ids::TabId>| #[trigger] add_tab_effect(pre.state, by_key.state, w, r))
                && (exists|r: Option<crate::ids::TabId>| #[trigger] add_tab_effect(pre.state, by_socket.state, w, r)),
            None => by_key.state == pre.state && by_socket.state == pre.state,
        },
        b == is_created(s),
{
    let st = pre.state;
    match st.active_ws() {
        Some(w) => {
            let r1 = choose|r: Option<crate::ids::TabId>| #[trigger] add_tab_effect(st, by_key.state, w, r)
                && by_key.state.panes_wf() && by_key.state.closed_seq() == st.closed_seq() && b == r is Some;
            let r2 = choose|r: Option<crate::ids::TabId>| #[trigger] add_tab_effect(st, by_socket.state, w, r)
                && by_socket.state.panes_wf() && by_socket.state.closed_seq() == st.closed_seq()
                && created_or(raw_tab(r), s, "no workspace"@);
            assert(r1 == r2);
        },
        None => {},
    }
}

/// Opening a workspace by keyboard and over the control socket without a
/// title do the same thing: each adds a workspace named `workspace` as
/// [`AppState::new_workspace`] does, leaves the emulators alone and
/// succeeds; the socket reports the id the workspace got.
pub proof fn law_new_workspace_same_from_keyboard_and_socket(
    pre: Engine,
    by_key: Engine,
    by_socket: Engine,
    b: bool,
    now: u64,
    s: Step,
)
    requires
        dispatched(pre, by_key, "newWorkspace"@, b),
        handled(pre, by_socket, Request::NewWorkspace { title: None }, now, s),
    ensures
        same_runtimes(pre, by_key),
        same_runtimes(pre, by_socket),
        b,
        exists|id: WorkspaceId| #[trigger] new_workspace_effect(pre.state, by_key.state, "workspace"@, id),
        exists|id: WorkspaceId|
            #[trigger] new_workspace_effect(pre.state, by_socket.state, "workspace"@, id) && s == Step::Reply(
                Response::Created { id: id.0 },
            ),
{
    lemma_action_names();
}

/// Closing the focused pane by keyboard and closing it by id over the
/// control socket do the same thing: each closes it as
/// [`AppState::close_pane`] does, leaves the emulators alone (until the
/// next runtime sync), and reports success exactly when the other does.
pub proof fn law_close_pane_same_from_keyboard_and_socket(
    pre: Engine,
    by_key: Engine,
    by_socket: Engine,
    pane: PaneId,
    b: bool,
    now: u64,
    s: Step,
)
    requires
        pre.state.focused_of() == Some(pane),
        dispatched(pre, by_key, "closePane"@, b),
        handled(pre, by_socket, Request::ClosePane { pane }, now, s),
    ensures
        same_runtimes(pre, by_key),
        same_runtimes(pre, by_socket),
        exists|c: bool| #[trigger] close_pane_effect(pre.state, by_key.state, pane, c),
        exists|c: bool| #[trigger] close_pane_effect(pre.state, by_socket.state, pane, c),
        b == (s == Step::Reply(Response::Done)),
{
    lemma_action_names();
    let st = pre.state;
    let c2 = choose|c: bool| #[trigger] close_pane_effect(st, by_socket.state, pane, c) && done_or(c, s, "no such pane"@);
    if !c2 {
        reveal_strlit("no such pane");
    }
}

/// The bytes that type `command` and press Enter.
pub open spec fn typed_command(command: Seq<char>) -> Seq<u8> {
    vstd::utf8::encode_utf8(command).push(0x0du8)
}

/// `s` writes `bytes` to `pane`.
pub open spec fn writes(s: Step, pane: PaneId, bytes: Seq<u8>) -> bool {
    s matches Step::Write { pane: p, bytes: b } && p == pane && b@ == bytes
}

/// What [`Engine::run_action`] does with the custom action `def`.
pub open spec fn ran(pre: Engine, post: Engine, def: ActionDef, s: Step) -> bool {
    let bytes = typed_command(def.command@);
    &&& same_runtimes(pre, post)
    &&& match def.target {
        ActionTarget::CurrentPane => post.state == pre.state && match pre.state.focused_of() {
            Some(p) => if rt_pos(pre.runtime_seq(), p) is Some {
                writes(s, p, bytes)
            } else {
                is_error(s, "no focused pane"@)
            },
            None => is_error(s, "no focused pane"@),
        },
        ActionTarget::NewTab => match pre.state.active_ws() {
            Some(w) => exists|r: Option<crate::ids::TabId>|
                #[trigger] add_tab_effect(pre.state, post.state, w, r) && post.state.closed_seq()
                    == pre.state.closed_seq() && match r {
                    Some(_) => writes(s, PaneId(pre.state.next_id()), bytes),
                    None => is_error(s, "no workspace"@),
                },
            None => post.state == pre.state && is_error(s, "no workspace"@),
        },
    }
}

impl Engine {
    /// Run a custom action: type its command and Enter into the focused
    /// pane, or into the shell of a new tab in the active workspace (which
    /// the caller spawns before it writes).
    pub fn run_action(&mut self, def: &ActionDef) -> (s: Step)
        requires
            old(self).wf(),
            old(self).state.next_id() + 2 <= u64::MAX,
        ensures
            final(self).wf(),
            ran(*old(self), *final(self), *def, s),
    {
        let mut bytes = utf8_bytes(def.command.as_str());
        bytes.push(0x0d);
        match def.target {
            ActionTarget::CurrentPane => match self.focused_runtime() {
                Some(p) => Step::Write { pane: p, bytes },
                None => Step::Reply(Response::error("no focused pane")),
            },
            ActionTarget::NewTab => {
                let pane = PaneId(self.state.next_id_value());
                match self.new_tab() {
                    Some(_) => Step::Write { pane, bytes },
                    None => Step::Reply(Response::error("no workspace")),
                }
            },
        }
    }
}

/// Where a key press goes.
#[derive(Debug)]
pub enum KeyRoute {
    /// A shortcut changed the topology.
    Handled,
    /// A shortcut for the window itself (`commandPalette`, `openSettings`,
    /// `toggleNotifications`): the window acts on it.
    Ui(String),
    /// Type `bytes` into the pane's PTY.
    Write { pane: PaneId, bytes: Vec<u8> },
    /// Nothing to do.
    Ignored,
}

/// The action a key event is bound to in `shortcuts`.
pub open spec fn key_action(key: crate::keys::KeyInput, mods: crate::keys::Mods, shortcuts: crate::shortcuts::ShortcutMap) -> Option<Seq<char>> {
    match crate::keys::spec_event_to_chord(key, mods) {
        Some(c) => match crate::keys::binding_for(shortcuts.entry_seq(), crate::keys::spec_normalize_chord(c)) {
            Some(i) => Some(shortcuts.entry_seq()[i].0),
            None => None,
        },
        None => None,
    }
}

/// A shortcut action the window handles itself.
pub open spec fn is_ui_action(a: Seq<char>) -> bool {
    a == "commandPalette"@ || a == "openSettings"@ || a == "toggleNotifications"@
}

/// `r` types the key into the focused pane of `e` when the key has bytes
/// and that pane a runtime, and is `Ignored` otherwise.
pub open spec fn typed(e: Engine, key: crate::keys::KeyInput, mods: crate::keys::Mods, r: KeyRoute) -> bool {
    match (crate::keys::spec_key_event_bytes(key, mods), e.state.focused_of()) {
        (Some(b), Some(p)) => if rt_pos(e.runtime_seq(), p) is Some {
            r matches KeyRoute::Write { pane, bytes } && pane == p && bytes@ == b
        } else {
            r is Ignored
        },
        _ => r is Ignored,
    }
}

/// What [`Engine::handle_key`] does with a key press: a bound shortcut is
/// dispatched first; one that changed nothing goes to the window when it is
/// a window action; otherwise the key is typed into the focused pane.
pub open spec fn key_handled(
    pre: Engine,
    post: Engine,
    key: crate::keys::KeyInput,
    mods: crate::keys::Mods,
    shortcuts: crate::shortcuts::ShortcutMap,
    r: KeyRoute,
) -> bool {
    match key_action(key, mods, shortcuts) {
        Some(a) => {
            ||| dispatched(pre, post, a, true) && r is Handled
            ||| dispatched(pre, post, a, false) && if is_ui_action(a) {
                r matches KeyRoute::Ui(s) && s@ == a
            } else {
                typed(post, key, mods, r)
            }
        },
        None => same_engine(pre, post) && typed(pre, key, mods, r),
    }
}

impl Engine {
    /// Route a key press: a configured shortcut takes precedence over
    /// typing; the bytes of any other key go to the focused pane.
    pub fn handle_key(&mut self, key: &crate::keys::KeyInput, mods: crate::keys::Mods, shortcuts: &crate::shortcuts::ShortcutMap) -> (r: KeyRoute)
        requires
            old(self).wf(),
            old(self).state.next_id() + 3 <= u64::MAX,
        ensures
            final(self).wf(),
            key_handled(*old(self), *final(self), *key, mods, *shortcuts, r),
    {
        let ghost pre = *self;
        if let Some(chord) = crate::keys::event_to_chord(key, mods) {
            if let Some(action) = crate::keys::resolve_action(chord.as_str(), shortcuts) {
                let b = self.dispatch_action(action);
                assert(key_action(*key, mods, *shortcuts) == Some(action@));
                assert(dispatched(pre, *self, action@, b));
                if b {
                    return KeyRoute::Handled;
                }
                if crate::text::text_eq(action, "commandPalette") || crate::text::text_eq(action, "openSettings")
                    || crate::text::text_eq(action, "toggleNotifications") {
                    return KeyRoute::Ui(action.to_owned());
                }
                return self.type_key(key, mods);
            }
        }
        self.type_key(key, mods)
    }

    fn type_key(&self, key: &crate::keys::KeyInput, mods: crate::keys::Mods) -> (r: KeyRoute)
        ensures
            typed(*self, *key, mods, r),
    {
        match crate::keys::key_event_to_bytes(key, mods) {
            Some(bytes) => match self.focused_runtime() {
                Some(p) => KeyRoute::Write { pane: p, bytes },
                None => KeyRoute::Ignored,
            },
            None => KeyRoute::Ignored,
        }
    }
}
} // verus!
