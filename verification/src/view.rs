//! What the window shows of the engine at one moment: the workspaces of the
//! sidebar, the tabs of the active workspace and the panes of its active tab,
//! each pane with its region, ring, liveness and rendered screen rows.

use vstd::prelude::*;
use crate::engine::{active_tab_of, rt_pos, unit_square, Engine};
use crate::config::SidebarPosition;
use crate::ids::{PaneId, TabId, WorkspaceId};
use crate::notification::{count_unread, RingState};
use crate::render::{run_view, spec_viewport_runs, viewport_to_runs_sel, StyledRun};
use crate::split::Rect;
use crate::term::spec_viewport;
use crate::workspace::{tab_attention, ws_pos, AppState, Workspace};

verus! {

/// A workspace as the sidebar lists it.
pub struct WorkspaceView {
    pub id: WorkspaceId,
    pub title: String,
    pub active: bool,
}

/// A tab of the active workspace as the tab bar lists it.
pub struct TabView {
    pub id: TabId,
    pub title: String,
    pub active: bool,
    /// Some pane of the tab rings for attention.
    pub attention: bool,
}

/// A pane of the active tab, where it sits and what it shows.
pub struct PaneView {
    pub id: PaneId,
    /// Its region within the `RATIO_ONE`-sided square.
    pub rect: Rect,
    pub focused: bool,
    pub ring: RingState,
    pub alive: bool,
    /// The live screen as styled runs, one list per row (none for a pane
    /// without an emulator).
    pub rows: Vec<Vec<StyledRun>>,
}

/// Everything one frame of the window is drawn from.
pub struct Snapshot {
    pub workspaces: Vec<WorkspaceView>,
    pub tabs: Vec<TabView>,
    pub panes: Vec<PaneView>,
    /// Unread notifications in the feed.
    pub unread: usize,
    /// The sidebar sits left of the panes.
    pub sidebar_left: bool,
}

/// The active workspace.
pub open spec fn active_ws_of(st: AppState) -> Option<Workspace> {
    match st.active_ws() {
        Some(a) => match ws_pos(st.ws_seq(), a) {
            Some(i) => Some(st.ws_seq()[i]),
            None => None,
        },
        None => None,
    }
}

/// The regions of the panes of the active tab.
pub open spec fn active_regions(st: AppState) -> Seq<(PaneId, Rect)> {
    match active_tab_of(st) {
        Some(t) => t.tree.layout_of(unit_square()),
        None => Seq::empty(),
    }
}

/// `v` lists workspace `w`.
pub open spec fn ws_view_ok(v: WorkspaceView, st: AppState, w: Workspace) -> bool {
    &&& v.id == w.id
    &&& v.title@ == w.title@
    &&& v.active == (st.active_ws() == Some(w.id))
}

/// `v` lists tab `t` of workspace `w`.
pub open spec fn tab_view_ok(v: TabView, st: AppState, w: Workspace, t: crate::tab::Tab) -> bool {
    &&& v.id == t.id
    &&& v.title@ == t.title@
    &&& v.active == (w.active_tab == Some(t.id))
    &&& v.attention == tab_attention(st, w.id, t.id)
}

/// The styled rows pane `p` shows: its emulator's live screen, or nothing.
pub open spec fn shown_rows(e: Engine, p: PaneId) -> Seq<Seq<(Seq<char>, Seq<char>)>> {
    match rt_pos(e.runtime_seq(), p) {
        Some(i) => spec_viewport_runs(spec_viewport(e.runtime_seq()[i].term@, 0), None),
        None => Seq::empty(),
    }
}

/// `v` shows pane `p` in region `r`.
pub open spec fn pane_view_ok(v: PaneView, e: Engine, p: PaneId, r: Rect) -> bool {
    let want = shown_rows(e, p);
    &&& v.id == p
    &&& v.rect == r
    &&& v.focused == (e.state.focused_of() == Some(p))
    &&& v.ring == (if e.state.pane_map().contains_key(p) {
        e.state.pane_map()[p].ring
    } else {
        RingState::Idle
    })
    &&& v.alive == match rt_pos(e.runtime_seq(), p) {
        Some(i) => !e.runtime_seq()[i].exited,
        None => true,
    }
    &&& v.rows@.len() == want.len()
    &&& forall|k: int| 0 <= k < want.len() ==> (#[trigger] v.rows@[k])@.map_values(|x: StyledRun| run_view(x)) == want[k]
}

fn pane_view(e: &Engine, id: PaneId, rect: Rect, focused: Option<PaneId>) -> (v: PaneView)
    requires
        e.wf(),
        focused == e.state.focused_of(),
    ensures
        pane_view_ok(v, *e, id, rect),
{
    let rows = match e.terminal(id) {
        Some(t) => {
            let vp = t.viewport(0);
            viewport_to_runs_sel(vp.as_slice(), None)
        },
        None => Vec::new(),
    };
    PaneView { id, rect, focused: focused == Some(id), ring: e.pane_ring(id), alive: e.pane_alive(id), rows }
}

impl Engine {
    /// What the window shows now: every workspace, the tabs of the active
    /// workspace, the panes of its active tab, the unread count and which
    /// side the sidebar (configured at `sidebar`) sits on.
    pub fn snapshot(&self, sidebar: SidebarPosition) -> (s: Snapshot)
        requires
            self.wf(),
        ensures
            s.workspaces@.len() == self.state.ws_seq().len(),
            forall|i: int|
                0 <= i < s.workspaces@.len() ==> ws_view_ok(
                    #[trigger] s.workspaces@[i],
                    self.state,
                    self.state.ws_seq()[i],
                ),
            match active_ws_of(self.state) {
                Some(w) => s.tabs@.len() == w.tabs@.len() && forall|k: int|
                    0 <= k < w.tabs@.len() ==> tab_view_ok(#[trigger] s.tabs@[k], self.state, w, w.tabs@[k]),
                None => s.tabs@.len() == 0,
            },
            s.panes@.len() == active_regions(self.state).len(),
            forall|k: int|
                0 <= k < s.panes@.len() ==> pane_view_ok(
                    #[trigger] s.panes@[k],
                    *self,
                    active_regions(self.state)[k].0,
                    active_regions(self.state)[k].1,
                ),
            s.unread == count_unread(self.state.feed().entry_seq()),
            s.sidebar_left == (sidebar == SidebarPosition::Left),
    {
        let st = &self.state;
        let active = st.active_id();
        let list = st.workspace_list();
        let mut workspaces: Vec<WorkspaceView> = Vec::new();
        let mut i: usize = 0;
        while i < list.len()
            invariant
                i <= list@.len(),
                list@ == st.ws_seq(),
                active == st.active_ws(),
                workspaces@.len() == i,
                forall|j: int| 0 <= j < i ==> ws_view_ok(#[trigger] workspaces@[j], *st, st.ws_seq()[j]),
            decreases list@.len() - i,
        {
            let w = &list[i];
            workspaces.push(WorkspaceView { id: w.id, title: w.title.clone(), active: active == Some(w.id) });
            i = i + 1;
        }
        let mut tabs: Vec<TabView> = Vec::new();
        match st.active_workspace() {
            Some(w) => {
                let mut k: usize = 0;
                while k < w.tabs.len()
                    invariant
                        k <= w.tabs@.len(),
                        st.panes_wf(),
                        tabs@.len() == k,
                        forall|j: int| 0 <= j < k ==> tab_view_ok(#[trigger] tabs@[j], *st, *w, w.tabs@[j]),
                    decreases w.tabs@.len() - k,
                {
                    let t = &w.tabs[k];
                    tabs.push(TabView {
                        id: t.id,
                        title: t.title.clone(),
                        active: w.active_tab == Some(t.id),
                        attention: st.tab_has_attention(w.id, t.id),
                    });
                    k = k + 1;
                }
            },
            None => {},
        }
        let regions = self.active_layout();
        let focused = st.focused_pane();
        let mut panes: Vec<PaneView> = Vec::new();
        let mut k: usize = 0;
        while k < regions.len()
            invariant
                k <= regions@.len(),
                regions@ == active_regions(self.state),
                self.wf(),
                focused == self.state.focused_of(),
                panes@.len() == k,
                forall|j: int|
                    0 <= j < k ==> pane_view_ok(#[trigger] panes@[j], *self, regions@[j].0, regions@[j].1),
            decreases regions@.len() - k,
        {
            let (id, rect) = regions[k];
            panes.push(pane_view(self, id, rect, focused));
            k = k + 1;
        }
        let sidebar_left = match sidebar {
            SidebarPosition::Left => true,
            SidebarPosition::Right => false,
        };
        Snapshot { workspaces, tabs, panes, unread: st.unread_notifications(), sidebar_left }
    }
}


/// The style class of a pane: `pane attention` when it rings for attention,
/// else `pane focused` when focused, else `pane`; ` exited` is added when
/// its process has exited.
pub open spec fn spec_pane_class(focused: bool, ring: RingState, alive: bool) -> Seq<char> {
    (if ring == RingState::Attention {
        "pane attention"@
    } else if focused {
        "pane focused"@
    } else {
        "pane"@
    }) + (if alive { Seq::empty() } else { " exited"@ })
}

/// The style class the window draws pane `p` with.
pub fn pane_class(p: &PaneView) -> (s: String)
    ensures
        s@ == spec_pane_class(p.focused, p.ring, p.alive),
{
    let mut s = String::new();
    let base = match p.ring {
        RingState::Attention => "pane attention",
        _ => if p.focused {
            "pane focused"
        } else {
            "pane"
        },
    };
    crate::keys::push_str(&mut s, base);
    if !p.alive {
        crate::keys::push_str(&mut s, " exited");
    }
    assert(s@ =~= spec_pane_class(p.focused, p.ring, p.alive));
    s
}
} // verus!
