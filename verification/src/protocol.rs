//! The control protocol's messages: what a client asks of the running app,
//! and the summary of the topology the app answers `list-workspaces` with.

use vstd::prelude::*;
use crate::ids::{PaneId, TabId, WorkspaceId};
use crate::notification::{Notification, RingState};
use crate::pane::Pane;
use crate::split::Orientation;
use crate::tab::Tab;
use crate::workspace::{tab_attention, AppState, Workspace};

verus! {

/// Where a focus request points.
#[derive(Debug, Clone, Copy, PartialEq, Eq, Structural)]
pub enum Target {
    Workspace(WorkspaceId),
    Tab(TabId),
    Pane(PaneId),
}

/// A direction for spatial focus movement.
#[derive(Debug, Clone, Copy, PartialEq, Eq, Structural)]
pub enum Dir {
    Left,
    Right,
    Up,
    Down,
}

/// Split orientation as it appears on the wire.
#[derive(Debug, Clone, Copy, PartialEq, Eq, Structural)]
pub enum SplitDir {
    Horizontal,
    Vertical,
}

/// The orientation a wire split direction stands for.
pub open spec fn orientation_of(d: SplitDir) -> Orientation {
    match d {
        SplitDir::Horizontal => Orientation::Horizontal,
        SplitDir::Vertical => Orientation::Vertical,
    }
}

impl From<SplitDir> for Orientation {
    fn from(d: SplitDir) -> (o: Orientation) {
        match d {
            SplitDir::Horizontal => Orientation::Horizontal,
            SplitDir::Vertical => Orientation::Vertical,
        }
    }
}

impl vstd::std_specs::convert::FromSpecImpl<SplitDir> for Orientation {
    open spec fn obeys_from_spec() -> bool {
        true
    }

    open spec fn from_spec(d: SplitDir) -> Orientation {
        orientation_of(d)
    }
}

/// A request a client sends.
#[derive(Debug, Clone, PartialEq, Eq)]
pub enum Request {
    /// Liveness check.
    Ping,
    /// Summarize the whole topology.
    ListWorkspaces,
    /// Write raw text to a pane (default: the focused pane).
    Send { pane: Option<PaneId>, data: String },
    /// Send a named key or chord to a pane.
    SendKey { pane: Option<PaneId>, key: String },
    /// Focus a workspace, tab or pane.
    Focus { target: Target },
    /// Move focus spatially within the active tab.
    FocusDir { dir: Dir },
    /// Open a new tab (default: in the active workspace).
    NewTab { workspace: Option<WorkspaceId> },
    /// Create a workspace.
    NewWorkspace { title: Option<String> },
    /// Split a pane (default: the focused pane).
    Split { pane: Option<PaneId>, orientation: SplitDir },
    /// Close a pane.
    ClosePane { pane: PaneId },
    /// Raise an attention notification on a pane.
    Notify { pane: PaneId, title: String, body: String },
    /// Plain-text snapshot of a pane's screen.
    Snapshot { pane: PaneId },
    /// Read a config value by dotted path (the whole config if `None`).
    GetConfig { path: Option<String> },
    /// Set a config value by dotted path.
    SetConfig { path: String, value: String },
    /// List the notification feed.
    ListNotifications,
    /// Mark every notification read.
    MarkAllRead,
    /// Rename a tab.
    RenameTab { tab: TabId, title: String },
    /// Rename a workspace.
    RenameWorkspace { workspace: WorkspaceId, title: String },
    /// Move a tab to a new index within its workspace.
    ReorderTab { tab: TabId, index: usize },
    /// Resize a pane's PTY and grid.
    ResizePane { pane: PaneId, rows: u16, cols: u16 },
    /// Split the focused pane into a browser pane showing `url`.
    OpenBrowser { url: String, orientation: SplitDir },
    /// Point a browser pane at `url`.
    NavigateBrowser { pane: PaneId, url: String },
    /// Search a pane's scrollback and screen.
    Find { pane: PaneId, query: String },
    /// Close a workspace.
    CloseWorkspace { workspace: WorkspaceId },
    /// Move a workspace to a new sidebar index.
    ReorderWorkspace { workspace: WorkspaceId, index: usize },
    /// Reset the active tab's dividers to even splits.
    Equalize,
    /// Toggle zoom of the focused pane.
    ToggleZoom,
    /// Focus the next tab of the active workspace.
    NextTab,
    /// Focus the previous tab of the active workspace.
    PrevTab,
    /// Mark one notification read.
    MarkNotificationRead { id: u64 },
    /// Remove one notification.
    DismissNotification { id: u64 },
    /// Run the custom action `name` from the config.
    RunAction { name: String },
}

#[derive(Debug, Clone, PartialEq, Eq)]
pub struct PaneSummary {
    pub id: PaneId,
    pub title: String,
    pub focused: bool,
    /// `idle`, `busy` or `attention`.
    pub ring: String,
}

#[derive(Debug, Clone, PartialEq, Eq)]
pub struct TabSummary {
    pub id: TabId,
    pub title: String,
    pub active: bool,
    pub attention: bool,
    pub panes: Vec<PaneSummary>,
}

#[derive(Debug, Clone, PartialEq, Eq)]
pub struct WorkspaceSummary {
    pub id: WorkspaceId,
    pub title: String,
    pub active: bool,
    pub tabs: Vec<TabSummary>,
}

/// The word for a ring.
pub open spec fn ring_word(r: Option<RingState>) -> Seq<char> {
    match r {
        Some(RingState::Attention) => "attention"@,
        Some(RingState::Busy) => "busy"@,
        _ => "idle"@,
    }
}

/// `p` summarises pane `pid` of tab `t`.
pub open spec fn pane_summary_ok(p: PaneSummary, m: Map<PaneId, Pane>, t: Tab, pid: PaneId) -> bool {
    &&& p.id == pid
    &&& p.title@ == (if m.contains_key(pid) { m[pid].title@ } else { Seq::empty() })
    &&& p.focused == (t.focused == Some(pid))
    &&& p.ring@ == ring_word(if m.contains_key(pid) { Some(m[pid].ring) } else { None })
}

/// `ts` summarises tab `t` of workspace `w`.
pub open spec fn tab_summary_ok(ts: TabSummary, s: AppState, w: Workspace, t: Tab) -> bool {
    let leaves = t.tree.pane_seq();
    &&& ts.id == t.id
    &&& ts.title@ == t.title@
    &&& ts.active == (w.active_tab == Some(t.id))
    &&& ts.attention == tab_attention(s, w.id, t.id)
    &&& ts.panes@.len() == leaves.len()
    &&& forall|k: int| 0 <= k < leaves.len() ==> pane_summary_ok(#[trigger] ts.panes@[k], s.pane_map(), t, leaves[k])
}

/// `ws` summarises workspace `w`.
pub open spec fn ws_summary_ok(ws: WorkspaceSummary, s: AppState, w: Workspace) -> bool {
    &&& ws.id == w.id
    &&& ws.title@ == w.title@
    &&& ws.active == (s.active_ws() == Some(w.id))
    &&& ws.tabs@.len() == w.tabs@.len()
    &&& forall|k: int| 0 <= k < w.tabs@.len() ==> tab_summary_ok(#[trigger] ws.tabs@[k], s, w, w.tabs@[k])
}

fn summarize_pane(state: &AppState, t: &Tab, pid: PaneId) -> (p: PaneSummary)
    requires
        state.panes_wf(),
    ensures
        pane_summary_ok(p, state.pane_map(), *t, pid),
{
    let found = state.pane(pid);
    let title = match found {
        Some(p) => p.title.clone(),
        None => String::new(),
    };
    let ring = match found {
        Some(p) => match p.ring {
            RingState::Attention => "attention".to_owned(),
            RingState::Busy => "busy".to_owned(),
            RingState::Idle => "idle".to_owned(),
        },
        None => "idle".to_owned(),
    };
    PaneSummary { id: pid, title, focused: t.focused == Some(pid), ring }
}

fn summarize_tab(state: &AppState, w: &Workspace, t: &Tab) -> (ts: TabSummary)
    requires
        state.panes_wf(),
    ensures
        tab_summary_ok(ts, *state, *w, *t),
{
    let leaves = t.panes();
    let mut panes: Vec<PaneSummary> = Vec::new();
    let mut k: usize = 0;
    while k < leaves.len()
        invariant
            k <= leaves@.len(),
            leaves@ == t.tree.pane_seq(),
            state.panes_wf(),
            panes@.len() == k,
            forall|j: int| 0 <= j < k ==> pane_summary_ok(#[trigger] panes@[j], state.pane_map(), *t, leaves@[j]),
        decreases leaves@.len() - k,
    {
        panes.push(summarize_pane(state, t, leaves[k]));
        k = k + 1;
    }
    TabSummary {
        id: t.id,
        title: t.title.clone(),
        active: w.active_tab == Some(t.id),
        attention: state.tab_has_attention(w.id, t.id),
        panes,
    }
}

/// The summary a `ListWorkspaces` request is answered with: every
/// workspace, its tabs and their panes, with what is active, focused and
/// ringing.
pub fn summarize(state: &AppState) -> (v: Vec<WorkspaceSummary>)
    requires
        state.panes_wf(),
    ensures
        v@.len() == state.ws_seq().len(),
        forall|i: int| 0 <= i < v@.len() ==> ws_summary_ok(#[trigger] v@[i], *state, state.ws_seq()[i]),
{
    let active_ws = state.active_id();
    let list = state.workspace_list();
    let mut out: Vec<WorkspaceSummary> = Vec::new();
    let mut i: usize = 0;
    while i < list.len()
        invariant
            i <= state.ws_seq().len(),
            state.ws_seq() == list@,
            active_ws == state.active_ws(),
            state.panes_wf(),
            out@.len() == i,
            forall|j: int| 0 <= j < i ==> ws_summary_ok(#[trigger] out@[j], *state, state.ws_seq()[j]),
        decreases state.ws_seq().len() - i,
    {
        let w = &list[i];
        let mut tabs: Vec<TabSummary> = Vec::new();
        let mut k: usize = 0;
        while k < w.tabs.len()
            invariant
                k <= w.tabs@.len(),
                state.panes_wf(),
                tabs@.len() == k,
                forall|j: int| 0 <= j < k ==> tab_summary_ok(#[trigger] tabs@[j], *state, *w, w.tabs@[j]),
            decreases w.tabs@.len() - k,
        {
            tabs.push(summarize_tab(state, w, &w.tabs[k]));
            k = k + 1;
        }
        out.push(WorkspaceSummary { id: w.id, title: w.title.clone(), active: active_ws == Some(w.id), tabs });
        i = i + 1;
    }
    out
}

/// The answer to a [`Request`].
#[derive(Debug, Clone, PartialEq, Eq)]
pub enum Response {
    /// Success with nothing more to say.
    Done,
    Pong,
    Workspaces { workspaces: Vec<WorkspaceSummary> },
    Snapshot { text: String },
    /// The notification feed, oldest first.
    Notifications { notifications: Vec<Notification> },
    /// A config value as JSON text.
    ConfigValue { value: String },
    /// Search hits as (line, col) pairs.
    Matches { matches: Vec<(usize, usize)> },
    /// Success that produced a new id.
    Created { id: u64 },
    Error { message: String },
}

impl Response {
    /// An error carrying `msg`.
    pub fn error(msg: &str) -> (r: Response)
        ensures
            r matches Response::Error { message } && message@ == msg@,
    {
        Response::Error { message: msg.to_owned() }
    }
}

} // verus!
