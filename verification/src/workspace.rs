//! Workspaces and the top-level [`AppState`] tying the topology together:
//! workspaces → tabs → split trees → panes, the focus model, the closed-tab
//! history and the notification feed, with the operations the GUI and the
//! control socket invoke.

use vstd::prelude::*;
use crate::ids::{IdGen, PaneId, TabId, WorkspaceId};
use crate::notification::{NotificationFeed, RingState, mark_where, Notification};
use crate::pane::{Pane, PaneKind, PaneMap, is_fresh_terminal, panes_by_id};
use crate::split::{FocusDir, Node, Orientation, spec_neighbor, nav_square, spec_split, splice, split_pair, first_index, spec_swap, swap_label};
use crate::tab::Tab;
use crate::text::{decimal, push_decimal, push_decimal_wide};

verus! {

#[derive(Debug)]
pub struct Workspace {
    pub id: WorkspaceId,
    pub title: String,
    pub cwd: Option<String>,
    pub tabs: Vec<Tab>,
    pub active_tab: Option<TabId>,
}

/// Index of the first element of `s` satisfying `f`.
pub open spec fn first_match<A>(s: Seq<A>, f: spec_fn(A) -> bool) -> Option<int>
    decreases s.len(),
{
    if s.len() == 0 {
        None
    } else if f(s[0]) {
        Some(0)
    } else {
        match first_match(s.drop_first(), f) {
            Some(i) => Some(i + 1),
            None => None,
        }
    }
}

pub proof fn lemma_first_match<A>(s: Seq<A>, f: spec_fn(A) -> bool)
    ensures
        first_match(s, f) matches Some(i) ==> 0 <= i < s.len() && f(s[i]) && forall|j: int|
            0 <= j < i ==> !f(#[trigger] s[j]),
        first_match(s, f) is None ==> forall|j: int| 0 <= j < s.len() ==> !f(#[trigger] s[j]),
    decreases s.len(),
{
    if s.len() > 0 && !f(s[0]) {
        lemma_first_match(s.drop_first(), f);
        assert forall|j: int| 1 <= j < s.len() implies s[j] == s.drop_first()[j - 1] by {}
    }
}

pub proof fn lemma_first_match_at<A>(s: Seq<A>, f: spec_fn(A) -> bool, i: int)
    requires
        0 <= i <= s.len(),
        forall|j: int| 0 <= j < i ==> !f(#[trigger] s[j]),
        i < s.len() ==> f(s[i]),
    ensures
        first_match(s, f) == (if i < s.len() {
            Some(i)
        } else {
            None::<int>
        }),
    decreases s.len(),
{
    lemma_first_match(s, f);
    if i < s.len() {
        match first_match(s, f) {
            Some(k) => {
                if k < i {
                    assert(!f(s[k]));
                }
                if k > i {
                    assert(!f(s[i]));
                }
            },
            None => {
                assert(!f(s[i]));
            },
        }
    } else {
        if let Some(k) = first_match(s, f) {
            assert(!f(s[k]));
        }
    }
}

/// Position of the workspace with `id`.
pub open spec fn ws_pos(ws: Seq<Workspace>, id: WorkspaceId) -> Option<int> {
    first_match(ws, |w: Workspace| w.id == id)
}

/// Position of the tab with `id`.
pub open spec fn tab_pos(tabs: Seq<Tab>, id: TabId) -> Option<int> {
    first_match(tabs, |t: Tab| t.id == id)
}

/// Position of the first tab whose tree holds `p`.
pub open spec fn tab_holding(tabs: Seq<Tab>, p: PaneId) -> Option<int> {
    first_match(tabs, |t: Tab| t.tree.pane_seq().contains(p))
}

/// Position of the first workspace with a tab holding `p`.
pub open spec fn ws_holding(ws: Seq<Workspace>, p: PaneId) -> Option<int> {
    first_match(ws, |w: Workspace| tab_holding(w.tabs@, p) is Some)
}

/// Position of the first workspace holding the tab `t`.
pub open spec fn ws_with_tab(ws: Seq<Workspace>, t: TabId) -> Option<int> {
    first_match(ws, |w: Workspace| tab_pos(w.tabs@, t) is Some)
}

/// The (workspace, tab) positions of the first tab holding `p`.
pub open spec fn locate(ws: Seq<Workspace>, p: PaneId) -> Option<(int, int)> {
    match ws_holding(ws, p) {
        Some(wi) => Some((wi, tab_holding(ws[wi].tabs@, p)->0)),
        None => None,
    }
}

/// Position of the active tab of `w`.
pub open spec fn active_tab_pos(w: Workspace) -> Option<int> {
    match w.active_tab {
        Some(t) => tab_pos(w.tabs@, t),
        None => None,
    }
}

/// A tab the user closed, kept so it can be reopened.
#[derive(Debug, Clone)]
pub struct ClosedTab {
    pub workspace: WorkspaceId,
    pub title: String,
}

/// The entire application topology.
#[derive(Debug)]
pub struct AppState {
    pub workspaces: Vec<Workspace>,
    pub active_workspace: Option<WorkspaceId>,
    pub panes: PaneMap,
    pub notifications: NotificationFeed,
    closed_tabs: Vec<ClosedTab>,
    ids: IdGen,
}

impl Workspace {
    pub fn active_tab(&self) -> (r: Option<&Tab>)
        ensures
            match active_tab_pos(*self) {
                Some(i) => r matches Some(t) && *t == self.tabs@[i],
                None => r is None,
            },
    {
        let id = match self.active_tab {
            Some(id) => id,
            None => return None,
        };
        match tab_position(&self.tabs, id) {
            Some(i) => Some(&self.tabs[i]),
            None => None,
        }
    }
}

fn tab_position(tabs: &Vec<Tab>, id: TabId) -> (r: Option<usize>)
    ensures
        match r {
            Some(k) => tab_pos(tabs@, id) == Some(k as int),
            None => tab_pos(tabs@, id) is None,
        },
        r matches Some(i) ==> i < tabs@.len() && tabs@[i as int].id == id,
{
    let mut i: usize = 0;
    while i < tabs.len()
        invariant
            i <= tabs@.len(),
            forall|j: int| 0 <= j < i ==> !(|t: Tab| t.id == id)(#[trigger] tabs@[j]),
        decreases tabs@.len() - i,
    {
        if tabs[i].id == id {
            proof {
                lemma_first_match_at(tabs@, |t: Tab| t.id == id, i as int);
            }
            return Some(i);
        }
        i = i + 1;
    }
    proof {
        lemma_first_match_at(tabs@, |t: Tab| t.id == id, i as int);
    }
    None
}

fn tab_holding_position(tabs: &Vec<Tab>, p: PaneId) -> (r: Option<usize>)
    ensures
        match r {
            Some(k) => tab_holding(tabs@, p) == Some(k as int),
            None => tab_holding(tabs@, p) is None,
        },
        r matches Some(i) ==> i < tabs@.len() && tabs@[i as int].tree.pane_seq().contains(p),
{
    let mut i: usize = 0;
    while i < tabs.len()
        invariant
            i <= tabs@.len(),
            forall|j: int| 0 <= j < i ==> !(|t: Tab| t.tree.pane_seq().contains(p))(#[trigger] tabs@[j]),
        decreases tabs@.len() - i,
    {
        if tabs[i].tree.contains(p) {
            proof {
                lemma_first_match_at(tabs@, |t: Tab| t.tree.pane_seq().contains(p), i as int);
            }
            return Some(i);
        }
        i = i + 1;
    }
    proof {
        lemma_first_match_at(tabs@, |t: Tab| t.tree.pane_seq().contains(p), i as int);
    }
    None
}

impl AppState {
    /// The workspaces in sidebar order.
    pub closed spec fn ws_seq(&self) -> Seq<Workspace> {
        self.workspaces@
    }

    /// The active workspace id.
    pub closed spec fn active_ws(&self) -> Option<WorkspaceId> {
        self.active_workspace
    }

    /// The panes by id.
    pub closed spec fn pane_map(&self) -> Map<PaneId, Pane> {
        self.panes.map()
    }

    /// The pane collection is well formed.
    pub closed spec fn panes_wf(&self) -> bool {
        self.panes.wf()
    }

    /// The notification feed.
    pub closed spec fn feed(&self) -> NotificationFeed {
        self.notifications
    }

    /// The value the id generator hands out next.
    pub closed spec fn next_id(&self) -> u64 {
        self.ids.next_value()
    }

    /// The closed-tab history, oldest first.
    pub closed spec fn closed_seq(&self) -> Seq<ClosedTab> {
        self.closed_tabs@
    }

    /// The pane focused in the active tab of the active workspace.
    pub closed spec fn focused_of(&self) -> Option<PaneId> {
        match self.active_workspace {
            Some(a) => match ws_pos(self.workspaces@, a) {
                Some(wi) => match active_tab_pos(self.workspaces@[wi]) {
                    Some(ti) => self.workspaces@[wi].tabs@[ti].focused,
                    None => None,
                },
                None => None,
            },
            None => None,
        }
    }

    /// Positions of the active workspace and its active tab.
    pub closed spec fn active_positions(&self) -> Option<(int, int)> {
        match self.active_workspace {
            Some(a) => match ws_pos(self.workspaces@, a) {
                Some(wi) => match active_tab_pos(self.workspaces@[wi]) {
                    Some(ti) => Some((wi, ti)),
                    None => None,
                },
                None => None,
            },
            None => None,
        }
    }

    /// An empty topology.
    pub fn new() -> (s: AppState)
        ensures
            s.ws_seq().len() == 0,
            s.active_ws() is None,
            s.pane_map() == Map::<PaneId, Pane>::empty(),
            s.panes_wf(),
            s.feed().entry_seq().len() == 0,
            s.feed().next_id_value() == 0,
            s.closed_seq().len() == 0,
            s.next_id() == 1,
    {
        AppState {
            workspaces: Vec::new(),
            active_workspace: None,
            panes: PaneMap::new(),
            notifications: NotificationFeed::default(),
            closed_tabs: Vec::new(),
            ids: IdGen::default(),
        }
    }

    /// A topology put together from saved parts: the workspaces in sidebar
    /// order, the active one, the panes (by id, the later of two with one id
    /// kept), the notification feed, the closed-tab history and the id
    /// generator.
    pub fn from_parts(
        workspaces: Vec<Workspace>,
        active_workspace: Option<WorkspaceId>,
        panes: Vec<Pane>,
        notifications: NotificationFeed,
        closed_tabs: Vec<ClosedTab>,
        ids: IdGen,
    ) -> (s: AppState)
        ensures
            s.ws_seq() == workspaces@,
            s.active_ws() == active_workspace,
            s.pane_map() == panes_by_id(panes@),
            s.panes_wf(),
            s.feed() == notifications,
            s.closed_seq() == closed_tabs@,
            s.next_id() == ids.next_value(),
    {
        AppState { workspaces, active_workspace, panes: PaneMap::from_panes(panes), notifications, closed_tabs, ids }
    }

    /// The closed-tab history, oldest first.
    pub fn closed_tab_list(&self) -> (r: &[ClosedTab])
        ensures
            r@ == self.closed_seq(),
    {
        self.closed_tabs.as_slice()
    }

    /// The value the id generator hands out next.
    pub fn next_id_value(&self) -> (n: u64)
        ensures
            n == self.next_id(),
    {
        self.ids.peek()
    }

    /// The workspaces, in sidebar order.
    pub fn workspace_list(&self) -> (r: &Vec<Workspace>)
        ensures
            r@ == self.ws_seq(),
    {
        &self.workspaces
    }

    /// The id of the active workspace.
    pub fn active_id(&self) -> (r: Option<WorkspaceId>)
        ensures
            r == self.active_ws(),
    {
        self.active_workspace
    }

    fn ws_position(&self, id: WorkspaceId) -> (r: Option<usize>)
        ensures
            match r {
                Some(k) => ws_pos(self.ws_seq(), id) == Some(k as int),
                None => ws_pos(self.ws_seq(), id) is None,
            },
            r matches Some(i) ==> i < self.ws_seq().len() && self.ws_seq()[i as int].id == id,
    {
        let mut i: usize = 0;
        while i < self.workspaces.len()
            invariant
                i <= self.workspaces@.len(),
                forall|j: int| 0 <= j < i ==> !(|w: Workspace| w.id == id)(#[trigger] self.workspaces@[j]),
            decreases self.workspaces@.len() - i,
        {
            if self.workspaces[i].id == id {
                proof {
                    lemma_first_match_at(self.workspaces@, |w: Workspace| w.id == id, i as int);
                }
                return Some(i);
            }
            i = i + 1;
        }
        proof {
            lemma_first_match_at(self.workspaces@, |w: Workspace| w.id == id, i as int);
        }
        None
    }

    pub fn workspace(&self, id: WorkspaceId) -> (r: Option<&Workspace>)
        ensures
            match ws_pos(self.ws_seq(), id) {
                Some(i) => r matches Some(w) && *w == self.ws_seq()[i],
                None => r is None,
            },
    {
        match self.ws_position(id) {
            Some(i) => {
                assert(ws_pos(self.ws_seq(), id) == Some(i as int));
                let w = &self.workspaces[i];
                assert(*w == self.workspaces@[i as int]);
                assert(*w == self.ws_seq()[i as int]);
                Some(w)
            },
            None => None,
        }
    }

    pub fn active_workspace(&self) -> (r: Option<&Workspace>)
        ensures
            match self.active_ws() {
                Some(a) => match ws_pos(self.ws_seq(), a) {
                    Some(i) => r matches Some(w) && *w == self.ws_seq()[i],
                    None => r is None,
                },
                None => r is None,
            },
    {
        match self.active_workspace {
            Some(a) => self.workspace(a),
            None => None,
        }
    }

    pub fn pane(&self, id: PaneId) -> (r: Option<&Pane>)
        requires
            self.panes_wf(),
        ensures
            match r {
                Some(p) => self.pane_map().contains_key(id) && *p == self.pane_map()[id],
                None => !self.pane_map().contains_key(id),
            },
    {
        self.panes.get(id)
    }

    /// The pane focused in the active tab of the active workspace.
    pub fn focused_pane(&self) -> (r: Option<PaneId>)
        ensures
            r == self.focused_of(),
    {
        match self.active_workspace() {
            Some(w) => match w.active_tab() {
                Some(t) => t.focused,
                None => None,
            },
            None => None,
        }
    }

    /// The workspace a tab belongs to.
    pub fn locate_tab_workspace(&self, tab: TabId) -> (r: Option<WorkspaceId>)
        ensures
            match ws_with_tab(self.ws_seq(), tab) {
                Some(i) => r == Some(self.ws_seq()[i].id),
                None => r is None,
            },
    {
        let mut i: usize = 0;
        while i < self.workspaces.len()
            invariant
                i <= self.workspaces@.len(),
                forall|j: int| 0 <= j < i ==> !(|w: Workspace| tab_pos(w.tabs@, tab) is Some)(#[trigger] self.workspaces@[j]),
            decreases self.workspaces@.len() - i,
        {
            if tab_position(&self.workspaces[i].tabs, tab).is_some() {
                proof {
                    lemma_first_match_at(self.workspaces@, |w: Workspace| tab_pos(w.tabs@, tab) is Some, i as int);
                }
                return Some(self.workspaces[i].id);
            }
            i = i + 1;
        }
        proof {
            lemma_first_match_at(self.workspaces@, |w: Workspace| tab_pos(w.tabs@, tab) is Some, i as int);
        }
        None
    }

    fn locate_indices(&self, pane: PaneId) -> (r: Option<(usize, usize)>)
        ensures
            match r {
                Some((wi, ti)) => locate(self.ws_seq(), pane) == Some((wi as int, ti as int)),
                None => locate(self.ws_seq(), pane) is None,
            },
            r matches Some((wi, ti)) ==> wi < self.ws_seq().len() && ti < self.ws_seq()[wi as int].tabs@.len()
                && self.ws_seq()[wi as int].tabs@[ti as int].tree.pane_seq().contains(pane),
    {
        let mut i: usize = 0;
        while i < self.workspaces.len()
            invariant
                i <= self.workspaces@.len(),
                forall|j: int| 0 <= j < i ==> !(|w: Workspace| tab_holding(w.tabs@, pane) is Some)(#[trigger] self.workspaces@[j]),
            decreases self.workspaces@.len() - i,
        {
            match tab_holding_position(&self.workspaces[i].tabs, pane) {
                Some(t) => {
                    proof {
                        lemma_first_match_at(self.workspaces@, |w: Workspace| tab_holding(w.tabs@, pane) is Some, i as int);
                    }
                    return Some((i, t));
                },
                None => {},
            }
            i = i + 1;
        }
        proof {
            lemma_first_match_at(self.workspaces@, |w: Workspace| tab_holding(w.tabs@, pane) is Some, i as int);
        }
        None
    }

    /// The (workspace, tab) a pane lives in.
    pub fn locate_pane(&self, pane: PaneId) -> (r: Option<(WorkspaceId, TabId)>)
        ensures
            match locate(self.ws_seq(), pane) {
                Some((wi, ti)) => r == Some((self.ws_seq()[wi].id, self.ws_seq()[wi].tabs@[ti].id)),
                None => r is None,
            },
    {
        proof {
            lemma_first_match(self.workspaces@, |w: Workspace| tab_holding(w.tabs@, pane) is Some);
            if let Some(wi) = ws_holding(self.workspaces@, pane) {
                lemma_first_match(self.workspaces@[wi].tabs@, |t: Tab| t.tree.pane_seq().contains(pane));
            }
        }
        match self.locate_indices(pane) {
            Some((w, t)) => Some((self.workspaces[w].id, self.workspaces[w].tabs[t].id)),
            None => None,
        }
    }
}


/// `b` equals `a` except possibly at position `i`.
pub open spec fn same_except<A>(a: Seq<A>, b: Seq<A>, i: int) -> bool {
    &&& a.len() == b.len()
    &&& forall|j: int| 0 <= j < a.len() && j != i ==> #[trigger] b[j] == a[j]
}

/// The tab created to hold `pane`: titled `title`, a single-leaf tree,
/// focused on the pane, not zoomed.
pub open spec fn is_new_tab(t: Tab, id: TabId, title: Seq<char>, pane: PaneId) -> bool {
    &&& t.id == id
    &&& t.title@ == title
    &&& t.tree.root_node() == Some(Node::Leaf(pane))
    &&& t.focused == Some(pane)
    &&& t.zoomed is None
}

/// Position reached from `cur` by one step forward or back among `n`, wrapping.
pub open spec fn adjacent_index(cur: int, n: int, forward: bool) -> int {
    if forward {
        (cur + 1) % n
    } else {
        (cur + n - 1) % n
    }
}

/// The effect of adding a tab to workspace `ws`: two ids are consumed; when
/// `ws` exists it gains, last, a tab titled by its position that holds one
/// new terminal pane (in the focused pane's directory) and becomes its
/// active tab.
pub open spec fn add_tab_effect(pre: AppState, post: AppState, ws: WorkspaceId, r: Option<TabId>) -> bool {
    &&& post.next_id() == pre.next_id() + 2
    &&& post.same_feed(pre)
    &&& post.same_active(pre)
    &&& match ws_pos(pre.ws_seq(), ws) {
        None => r is None && post.same_ws(pre) && post.pane_map() == pre.pane_map(),
        Some(wi) => {
            let n = pre.next_id();
            let pane = PaneId(n);
            let tab = TabId((n + 1) as u64);
            let w = pre.ws_seq()[wi];
            let w2 = post.ws_seq()[wi];
            &&& r == Some(tab)
            &&& same_except(pre.ws_seq(), post.ws_seq(), wi)
            &&& ws_same_fields(w, w2)
            &&& w2.tabs@.len() == w.tabs@.len() + 1
            &&& w2.tabs@.drop_last() == w.tabs@
            &&& is_new_tab(w2.tabs@.last(), tab, decimal((w.tabs@.len() + 1) as nat), pane)
            &&& w2.active_tab == Some(tab)
            &&& post.pane_map() == pre.pane_map().insert(pane, post.pane_map()[pane])
            &&& post.pane_map()[pane] == Pane { cwd: pre.inherited_cwd(), ..post.pane_map()[pane] }
            &&& is_fresh_terminal(Pane { cwd: None, ..post.pane_map()[pane] }, pane)
        },
    }
}

impl AppState {
    pub closed spec fn same_ws(&self, o: AppState) -> bool {
        self.workspaces@ == o.workspaces@
    }

    pub closed spec fn same_active(&self, o: AppState) -> bool {
        self.active_workspace == o.active_workspace
    }

    pub closed spec fn same_panes(&self, o: AppState) -> bool {
        self.panes == o.panes
    }

    pub closed spec fn same_feed(&self, o: AppState) -> bool {
        self.notifications == o.notifications
    }

    pub closed spec fn same_history(&self, o: AppState) -> bool {
        self.closed_tabs@ == o.closed_tabs@ && self.ids == o.ids
    }

    /// The working directory a new pane inherits from the focused pane.
    pub closed spec fn inherited_cwd(&self) -> Option<String> {
        match self.focused_of() {
            Some(fp) => if self.panes.map().contains_key(fp) {
                self.panes.map()[fp].cwd
            } else {
                None
            },
            None => None,
        }
    }

    // ---- creation -------------------------------------------------------

    /// Create a workspace seeded with one tab holding one terminal pane; it
    /// becomes active when no workspace was.
    pub fn new_workspace(&mut self, title: &str) -> (id: WorkspaceId)
        requires
            old(self).next_id() + 3 <= u64::MAX,
            old(self).panes_wf(),
        ensures
            new_workspace_effect(*old(self), *final(self), title@, id),
    {
        let ws_id = self.ids.workspace();
        let pane_id = self.ids.pane();
        let tab_id = self.ids.tab();
        self.panes.insert(Pane::terminal(pane_id));
        let one = "1".to_owned();
        proof {
            reveal_strlit("1");
            assert(one@ =~= seq!['1']);
        }
        let tab = Tab::new(tab_id, one, pane_id);
        let mut tabs = Vec::new();
        tabs.push(tab);
        self.workspaces.push(Workspace {
            id: ws_id,
            title: title.to_owned(),
            cwd: None,
            tabs,
            active_tab: Some(tab_id),
        });
        if self.active_workspace.is_none() {
            self.active_workspace = Some(ws_id);
        }
        assert(self.workspaces@.drop_last() =~= old(self).workspaces@);
        ws_id
    }

    /// Add a tab holding one new terminal pane to workspace `ws` and focus
    /// it. The pane inherits the focused pane's working directory; the tab is
    /// titled by its position. Two ids are consumed whether or not `ws` exists.
    pub fn add_tab(&mut self, ws: WorkspaceId) -> (r: Option<TabId>)
        requires
            old(self).next_id() + 2 <= u64::MAX,
            old(self).panes_wf(),
        ensures
            add_tab_effect(*old(self), *final(self), ws, r),
            final(self).panes_wf(),
            final(self).closed_seq() == old(self).closed_seq(),
    {
        let pane_id = self.ids.pane();
        let tab_id = self.ids.tab();
        let inherited_cwd = match self.focused_pane() {
            Some(fp) => match self.panes.get(fp) {
                Some(p) => crate::pane::clone_opt_string(&p.cwd),
                None => None,
            },
            None => None,
        };
        let wi = match self.ws_position(ws) {
            Some(wi) => wi,
            None => return None,
        };
        proof {
            lemma_first_match(self.workspaces@, |w: Workspace| w.id == ws);
        }
        let mut title = String::new();
        push_decimal_wide(&mut title, (self.workspaces[wi].tabs.len() as u128) + 1);
        let mut pane = Pane::terminal(pane_id);
        pane.cwd = inherited_cwd;
        self.panes.insert(pane);
        self.workspaces[wi].tabs.push(Tab::new(tab_id, title, pane_id));
        self.workspaces[wi].active_tab = Some(tab_id);
        assert(self.workspaces@[wi as int].tabs@.drop_last() =~= old(self).workspaces@[wi as int].tabs@);
        Some(tab_id)
    }

    // ---- focus ----------------------------------------------------------

    /// Make `ws` the active workspace; `false` if it does not exist.
    pub fn focus_workspace(&mut self, ws: WorkspaceId) -> (b: bool)
        ensures
            focus_workspace_effect(*old(self), *final(self), ws, b),
    {
        if self.ws_position(ws).is_some() {
            self.active_workspace = Some(ws);
            true
        } else {
            false
        }
    }

    /// Make `tab` the active tab of `ws` and `ws` the active workspace;
    /// `false` unless `ws` exists and holds `tab`.
    pub fn focus_tab(&mut self, ws: WorkspaceId, tab: TabId) -> (b: bool)
        ensures
            focus_tab_effect(*old(self), *final(self), ws, tab, b),
    {
        match self.ws_position(ws) {
            Some(wi) => {
                proof {
                    lemma_first_match(self.workspaces@, |w: Workspace| w.id == ws);
                }
                if tab_position(&self.workspaces[wi].tabs, tab).is_some() {
                    self.workspaces[wi].active_tab = Some(tab);
                    self.active_workspace = Some(ws);
                    true
                } else {
                    false
                }
            },
            None => false,
        }
    }

    /// Focus the next (`forward`) or previous tab of the active workspace,
    /// wrapping; `false` when it has fewer than two tabs. When the active tab
    /// is not found, counting starts from the first tab.
    pub fn focus_adjacent_tab(&mut self, forward: bool) -> (b: bool)
        ensures
            focus_adjacent_tab_effect(*old(self), *final(self), forward, b),
    {
        let ws = match self.active_workspace {
            Some(ws) => ws,
            None => return false,
        };
        let wi = match self.ws_position(ws) {
            Some(wi) => wi,
            None => return false,
        };
        proof {
            lemma_first_match(self.workspaces@, |w: Workspace| w.id == ws);
        }
        let n = self.workspaces[wi].tabs.len();
        if n < 2 {
            return false;
        }
        let cur = match self.workspaces[wi].active_tab {
            Some(id) => match tab_position(&self.workspaces[wi].tabs, id) {
                Some(c) => c,
                None => 0,
            },
            None => 0,
        };
        proof {
            if let Some(c) = active_tab_pos(self.workspaces@[wi as int]) {
                lemma_first_match(self.workspaces@[wi as int].tabs@, |t: Tab| t.id == self.workspaces@[wi as int].active_tab->0);
            }
        }
        let next = if forward {
            if cur + 1 == n { 0 } else { cur + 1 }
        } else {
            if cur == 0 { n - 1 } else { cur - 1 }
        };
        assert(next == adjacent_index(cur as int, n as int, forward)) by {
            if forward {
                if cur + 1 == n {
                    vstd::arithmetic::div_mod::lemma_mod_self_0(n as int);
                } else {
                    vstd::arithmetic::div_mod::lemma_small_mod((cur + 1) as nat, n as nat);
                }
            } else {
                if cur == 0 {
                    vstd::arithmetic::div_mod::lemma_small_mod((n - 1) as nat, n as nat);
                } else {
                    vstd::arithmetic::div_mod::lemma_mod_add_multiples_vanish((cur - 1) as int, n as int);
                    vstd::arithmetic::div_mod::lemma_small_mod((cur - 1) as nat, n as nat);
                }
            }
        }
        let id = self.workspaces[wi].tabs[next].id;
        self.workspaces[wi].active_tab = Some(id);
        true
    }

    /// Focus the workspace at `index` in sidebar order; `false` if out of range.
    pub fn focus_workspace_index(&mut self, index: usize) -> (b: bool)
        ensures
            b == (index < old(self).ws_seq().len()),
            final(self).active_ws() == (if b {
                Some(old(self).ws_seq()[index as int].id)
            } else {
                old(self).active_ws()
            }),
            final(self).same_ws(*old(self)),
            final(self).same_panes(*old(self)),
            final(self).same_feed(*old(self)),
            final(self).same_history(*old(self)),
    {
        if index < self.workspaces.len() {
            self.active_workspace = Some(self.workspaces[index].id);
            true
        } else {
            false
        }
    }
}


/// `a` and `b` are the same workspace apart from its tabs and active tab.
pub open spec fn ws_same_fields(a: Workspace, b: Workspace) -> bool {
    a.id == b.id && a.title == b.title && a.cwd == b.cwd
}

/// `b` is `a` with tab `ti` of workspace `wi` replaced by `t`; the
/// workspace keeps its active tab.
pub open spec fn tab_replaced(a: Seq<Workspace>, b: Seq<Workspace>, wi: int, ti: int, t: Tab) -> bool {
    &&& same_except(a, b, wi)
    &&& ws_same_fields(a[wi], b[wi])
    &&& b[wi].active_tab == a[wi].active_tab
    &&& b[wi].tabs@ == a[wi].tabs@.update(ti, t)
}

/// `b` is `a` with only the split tree of tab `ti` of workspace `wi` changed.
pub open spec fn tree_replaced(a: Seq<Workspace>, b: Seq<Workspace>, wi: int, ti: int) -> bool {
    &&& same_except(a, b, wi)
    &&& ws_same_fields(a[wi], b[wi])
    &&& b[wi].active_tab == a[wi].active_tab
    &&& same_except(a[wi].tabs@, b[wi].tabs@, ti)
    &&& b[wi].tabs@[ti].id == a[wi].tabs@[ti].id
    &&& b[wi].tabs@[ti].title == a[wi].tabs@[ti].title
    &&& b[wi].tabs@[ti].focused == a[wi].tabs@[ti].focused
    &&& b[wi].tabs@[ti].zoomed == a[wi].tabs@[ti].zoomed
}

/// Whether any pane of `leaves` has an attention ring in `panes`.
pub open spec fn any_attention(leaves: Seq<PaneId>, panes: Map<PaneId, Pane>) -> bool {
    exists|k: int|
        0 <= k < leaves.len() && panes.contains_key(#[trigger] leaves[k]) && panes[leaves[k]].ring
            == RingState::Attention
}

/// Whether any pane of tab `tab` of workspace `ws` (the first of each with
/// those ids) shows an attention ring.
pub open spec fn tab_attention(s: AppState, ws: WorkspaceId, tab: TabId) -> bool {
    match ws_pos(s.ws_seq(), ws) {
        Some(wi) => match tab_pos(s.ws_seq()[wi].tabs@, tab) {
            Some(ti) => any_attention(s.ws_seq()[wi].tabs@[ti].tree.pane_seq(), s.pane_map()),
            None => false,
        },
        None => false,
    }
}

/// The pane map with the ring of `pane` set to `ring`, when it is present.
pub open spec fn with_ring(m: Map<PaneId, Pane>, pane: PaneId, ring: RingState) -> Map<PaneId, Pane> {
    if m.contains_key(pane) {
        m.insert(pane, Pane { ring, ..m[pane] })
    } else {
        m
    }
}

/// Selects the notifications of `pane`.
pub open spec fn of_pane(pane: PaneId) -> spec_fn(Notification) -> bool {
    |n: Notification| n.pane == pane
}

/// Nothing observable changed between `pre` and `post`.
pub open spec fn unchanged(pre: AppState, post: AppState) -> bool {
    &&& post.same_ws(pre)
    &&& post.same_active(pre)
    &&& post.same_panes(pre)
    &&& post.same_feed(pre)
    &&& post.same_history(pre)
}

/// The effect of focusing `pane`: the first tab holding it becomes the
/// active tab of its workspace, which becomes active; the tab focuses the
/// pane, whose ring is cleared and whose notifications are marked read.
pub open spec fn focus_effect(pre: AppState, post: AppState, pane: PaneId) -> bool {
    match locate(pre.ws_seq(), pane) {
        None => unchanged(pre, post),
        Some((wi, ti)) => {
            let w = pre.ws_seq()[wi];
            let t = w.tabs@[ti];
            &&& same_except(pre.ws_seq(), post.ws_seq(), wi)
            &&& ws_same_fields(w, post.ws_seq()[wi])
            &&& post.ws_seq()[wi].active_tab == Some(t.id)
            &&& post.ws_seq()[wi].tabs@ == w.tabs@.update(ti, Tab { focused: Some(pane), ..t })
            &&& post.active_ws() == Some(w.id)
            &&& post.pane_map() == with_ring(pre.pane_map(), pane, RingState::Idle)
            &&& post.feed().entry_seq() == mark_where(pre.feed().entry_seq(), of_pane(pane))
            &&& post.feed().next_id_value() == pre.feed().next_id_value()
            &&& post.same_history(pre)
        },
    }
}

impl AppState {
    /// Positions of the active workspace and its active tab.
    fn active_indices(&self) -> (r: Option<(usize, usize)>)
        ensures
            match r {
                Some((wi, ti)) => self.active_positions() == Some((wi as int, ti as int)),
                None => self.active_positions() is None,
            },
            r matches Some((wi, ti)) ==> wi < self.ws_seq().len() && ti < self.ws_seq()[wi as int].tabs@.len(),
    {
        let a = match self.active_workspace {
            Some(a) => a,
            None => return None,
        };
        let wi = match self.ws_position(a) {
            Some(wi) => wi,
            None => return None,
        };
        let t = match self.workspaces[wi].active_tab {
            Some(t) => t,
            None => return None,
        };
        match tab_position(&self.workspaces[wi].tabs, t) {
            Some(ti) => Some((wi, ti)),
            None => None,
        }
    }

    /// Focus a pane, clearing its ring and marking its notifications read.
    /// `false` when no tab holds it.
    pub fn focus_pane(&mut self, pane: PaneId) -> (b: bool)
        requires
            old(self).panes_wf(),
        ensures
            focus_pane_effect(*old(self), *final(self), pane, b),
    {
        let (wi, ti) = match self.locate_indices(pane) {
            Some(x) => x,
            None => return false,
        };
        let ws_id = self.workspaces[wi].id;
        let tab_id = self.workspaces[wi].tabs[ti].id;
        self.active_workspace = Some(ws_id);
        self.workspaces[wi].active_tab = Some(tab_id);
        self.workspaces[wi].tabs[ti].focused = Some(pane);
        self.panes.set_ring(pane, RingState::Idle);
        self.notifications.mark_pane_read(pane);
        proof {
            assert((|n: Notification| n.pane == pane) =~= of_pane(pane));
            assert(self.workspaces@[wi as int].tabs@ =~= old(self).workspaces@[wi as int].tabs@.update(
                ti as int,
                Tab { focused: Some(pane), ..old(self).workspaces@[wi as int].tabs@[ti as int] },
            ));
        }
        true
    }

    /// Focus the pane at 0-based `index` (tree order) in the active tab.
    pub fn focus_pane_index(&mut self, index: usize) -> (b: bool)
        requires
            old(self).panes_wf(),
        ensures
            final(self).panes_wf(),
            match old(self).active_positions() {
                Some((wi, ti)) => {
                    let leaves = old(self).ws_seq()[wi].tabs@[ti].tree.pane_seq();
                    if index < leaves.len() {
                        b == locate(old(self).ws_seq(), leaves[index as int]) is Some
                            && focus_effect(*old(self), *final(self), leaves[index as int])
                    } else {
                        !b && unchanged(*old(self), *final(self))
                    }
                },
                None => !b && unchanged(*old(self), *final(self)),
            },
    {
        let (wi, ti) = match self.active_indices() {
            Some(x) => x,
            None => return false,
        };
        let panes = self.workspaces[wi].tabs[ti].panes();
        if index < panes.len() {
            let p = panes[index];
            self.focus_pane(p)
        } else {
            false
        }
    }

    /// Move focus spatially within the active tab.
    pub fn focus_dir(&mut self, dir: FocusDir) -> (b: bool)
        requires
            old(self).panes_wf(),
        ensures
            focus_dir_effect(*old(self), *final(self), dir, b),
    {
        let (wi, ti) = match self.active_indices() {
            Some(x) => x,
            None => return false,
        };
        let focused = match self.workspaces[wi].tabs[ti].focused {
            Some(f) => f,
            None => return false,
        };
        match self.workspaces[wi].tabs[ti].tree.neighbor(focused, dir) {
            Some(next) => self.focus_pane(next),
            None => false,
        }
    }

    /// Swap the focused pane with its spatial neighbour in `dir`; both panes
    /// keep running. `false` if there is none.
    pub fn swap_focused(&mut self, dir: FocusDir) -> (b: bool)
        ensures
            final(self).same_active(*old(self)),
            final(self).same_panes(*old(self)),
            final(self).same_feed(*old(self)),
            final(self).same_history(*old(self)),
            match old(self).active_positions() {
                Some((wi, ti)) => {
                    let t = old(self).ws_seq()[wi].tabs@[ti];
                    match t.focused {
                        Some(f) => match spec_neighbor(t.tree.layout_of(nav_square()), f, dir) {
                            Some(n) => {
                                &&& b == (t.tree.pane_seq().contains(f) && t.tree.pane_seq().contains(n))
                                &&& tree_replaced(old(self).ws_seq(), final(self).ws_seq(), wi, ti)
                                &&& final(self).ws_seq()[wi].tabs@[ti].tree.root_node() == (if b {
                                    Some(spec_swap(t.tree.root_node()->0, f, n))
                                } else {
                                    t.tree.root_node()
                                })
                            },
                            None => !b && final(self).same_ws(*old(self)),
                        },
                        None => !b && final(self).same_ws(*old(self)),
                    }
                },
                None => !b && final(self).same_ws(*old(self)),
            },
    {
        let (wi, ti) = match self.active_indices() {
            Some(x) => x,
            None => return false,
        };
        let focused = match self.workspaces[wi].tabs[ti].focused {
            Some(f) => f,
            None => return false,
        };
        let neighbor = match self.workspaces[wi].tabs[ti].tree.neighbor(focused, dir) {
            Some(n) => n,
            None => return false,
        };
        let ok = self.workspaces[wi].tabs[ti].tree.swap(focused, neighbor);
        ok
    }

    /// Reset the divider ratios of the active tab to even splits; `false`
    /// when there is no active tab.
    pub fn equalize_active(&mut self) -> (b: bool)
        ensures
            equalize_active_effect(*old(self), *final(self), b),
    {
        match self.active_indices() {
            Some((wi, ti)) => {
                self.workspaces[wi].tabs[ti].tree.equalize();
                true
            },
            None => false,
        }
    }

    /// Set the ratio (ten-thousandths, clamped) of divider `split_index`
    /// (pre-order) in the active tab. `false` without an active tab or such
    /// a divider.
    pub fn set_active_divider(&mut self, split_index: usize, ratio: u32) -> (b: bool)
        ensures
            final(self).same_active(*old(self)),
            final(self).same_panes(*old(self)),
            final(self).same_feed(*old(self)),
            final(self).same_history(*old(self)),
            match old(self).active_positions() {
                Some((wi, ti)) => {
                    let t = old(self).ws_seq()[wi].tabs@[ti];
                    &&& b == (split_index < t.tree.divider_count())
                    &&& tree_replaced(old(self).ws_seq(), final(self).ws_seq(), wi, ti)
                    &&& final(self).ws_seq()[wi].tabs@[ti].tree.root_node() == (match t.tree.root_node() {
                        Some(n) => Some(crate::split::spec_set_ratio_at(n, split_index as int, crate::split::clamp_ratio(ratio))),
                        None => None,
                    })
                },
                None => !b && final(self).same_ws(*old(self)),
            },
    {
        match self.active_indices() {
            Some((wi, ti)) => self.workspaces[wi].tabs[ti].tree.set_ratio_by_index(split_index, ratio),
            None => false,
        }
    }

    /// Toggle zoom of the active tab: unzoom when zoomed, else zoom to the
    /// focused pane. `false` when there is no active tab.
    pub fn toggle_zoom(&mut self) -> (b: bool)
        ensures
            toggle_zoom_effect(*old(self), *final(self), b),
    {
        match self.active_indices() {
            Some((wi, ti)) => {
                let z = if self.workspaces[wi].tabs[ti].zoomed.is_some() {
                    None
                } else {
                    self.workspaces[wi].tabs[ti].focused
                };
                self.workspaces[wi].tabs[ti].zoomed = z;
                proof {
                    let t = old(self).workspaces@[wi as int].tabs@[ti as int];
                    assert(self.workspaces@[wi as int].tabs@ =~= old(self).workspaces@[wi as int].tabs@.update(
                        ti as int,
                        Tab { zoomed: z, ..t },
                    ));
                }
                true
            },
            None => false,
        }
    }

    /// The pane the active tab is zoomed to, if any and still in its tree.
    pub fn zoomed_pane(&self) -> (r: Option<PaneId>)
        ensures
            r == (match self.active_positions() {
                Some((wi, ti)) => {
                    let t = self.ws_seq()[wi].tabs@[ti];
                    match t.zoomed {
                        Some(z) => if t.tree.pane_seq().contains(z) {
                            Some(z)
                        } else {
                            None
                        },
                        None => None,
                    }
                },
                None => None,
            }),
    {
        match self.active_indices() {
            Some((wi, ti)) => match self.workspaces[wi].tabs[ti].zoomed {
                Some(z) => if self.workspaces[wi].tabs[ti].tree.contains(z) {
                    Some(z)
                } else {
                    None
                },
                None => None,
            },
            None => None,
        }
    }

    /// Set the ring of `pane`; `false` when there is no such pane.
    pub fn set_ring(&mut self, pane: PaneId, ring: RingState) -> (b: bool)
        requires
            old(self).panes_wf(),
        ensures
            b == old(self).pane_map().contains_key(pane),
            final(self).pane_map() == with_ring(old(self).pane_map(), pane, ring),
            final(self).panes_wf(),
            final(self).same_ws(*old(self)),
            final(self).same_active(*old(self)),
            final(self).same_feed(*old(self)),
            final(self).same_history(*old(self)),
    {
        self.panes.set_ring(pane, ring)
    }

    /// The ids of all panes, each once.
    pub fn pane_ids(&self) -> (v: Vec<PaneId>)
        requires
            self.panes_wf(),
        ensures
            v@.to_set() == self.pane_map().dom(),
            v@.no_duplicates(),
    {
        self.panes.keys()
    }

    /// Set the title of a pane; `false` when there is no such pane.
    pub fn set_pane_title(&mut self, pane: PaneId, title: String) -> (b: bool)
        requires
            old(self).panes_wf(),
        ensures
            b == old(self).pane_map().contains_key(pane),
            b ==> final(self).pane_map() == old(self).pane_map().insert(pane, Pane { title, ..old(self).pane_map()[pane] }),
            !b ==> final(self).pane_map() == old(self).pane_map(),
            final(self).panes_wf(),
            final(self).same_ws(*old(self)),
            final(self).same_active(*old(self)),
            final(self).same_feed(*old(self)),
            final(self).same_history(*old(self)),
    {
        self.panes.set_title(pane, title)
    }

    /// Whether ids are left for any one operation: three topology ids and
    /// one notification id.
    pub fn has_room(&self) -> (b: bool)
        ensures
            b == (self.next_id() + 3 <= u64::MAX && self.feed().next_id_value() < u64::MAX),
    {
        let n = self.ids.peek();
        n <= u64::MAX - 3 && self.notifications.next_id() < u64::MAX
    }

    /// The id the next notification gets.
    pub fn feed_next_id(&self) -> (n: u64)
        ensures
            n == self.feed().next_id_value(),
    {
        self.notifications.next_id()
    }

    /// How many notifications are unread.
    pub(crate) fn unread_notifications(&self) -> (n: usize)
        ensures
            n == crate::notification::count_unread(self.feed().entry_seq()),
    {
        self.notifications.unread_count()
    }

    /// The notification feed's entries, oldest first.
    pub fn notification_entries(&self) -> (s: &[Notification])
        ensures
            s@ == self.feed().entry_seq(),
    {
        self.notifications.entries()
    }

    /// The newest unread notification.
    pub fn latest_unread(&self) -> (r: Option<&Notification>)
        ensures
            match crate::notification::newest_unread(self.feed().entry_seq(), self.feed().entry_seq().len() as int) {
                Some(i) => r matches Some(n) && *n == self.feed().entry_seq()[i],
                None => r is None,
            },
    {
        self.notifications.latest_unread()
    }

    /// Mark every notification read; the number that were unread.
    pub fn mark_all_read(&mut self) -> (n: usize)
        ensures
            final(self).feed().entry_seq() == mark_where(old(self).feed().entry_seq(), |x: Notification| true),
            final(self).feed().next_id_value() == old(self).feed().next_id_value(),
            n == crate::notification::count_unread(old(self).feed().entry_seq()),
            old(self).feed().wf() ==> final(self).feed().wf(),
            final(self).same_ws(*old(self)),
            final(self).same_active(*old(self)),
            final(self).same_panes(*old(self)),
            final(self).same_history(*old(self)),
    {
        self.notifications.mark_all_read()
    }

    /// Whether any pane in tab `tab` of workspace `ws` shows an attention ring.
    pub fn tab_has_attention(&self, ws: WorkspaceId, tab: TabId) -> (b: bool)
        requires
            self.panes_wf(),
        ensures
            b == tab_attention(*self, ws, tab),
    {
        let wi = match self.ws_position(ws) {
            Some(wi) => wi,
            None => return false,
        };
        let ti = match tab_position(&self.workspaces[wi].tabs, tab) {
            Some(ti) => ti,
            None => return false,
        };
        let leaves = self.workspaces[wi].tabs[ti].panes();
        let ghost m = self.pane_map();
        let mut k: usize = 0;
        while k < leaves.len()
            invariant
                k <= leaves@.len(),
                self.panes_wf(),
                m == self.pane_map(),
                ws_pos(self.ws_seq(), ws) == Some(wi as int),
                wi < self.ws_seq().len(),
                tab_pos(self.ws_seq()[wi as int].tabs@, tab) == Some(ti as int),
                leaves@ == self.ws_seq()[wi as int].tabs@[ti as int].tree.pane_seq(),
                forall|j: int| 0 <= j < k ==> !(m.contains_key(#[trigger] leaves@[j]) && m[leaves@[j]].ring == RingState::Attention),
            decreases leaves@.len() - k,
        {
            match self.panes.get(leaves[k]) {
                Some(p) => {
                    if p.ring.is_attention() {
                        assert(m.contains_key(leaves@[k as int]) && m[leaves@[k as int]].ring == RingState::Attention);
                        assert(any_attention(leaves@, m));
                        return true;
                    }
                },
                None => {},
            }
            k = k + 1;
        }
        false
    }

    /// Rename the first tab with id `tab`; `false` if there is none.
    pub fn rename_tab(&mut self, tab: TabId, title: &str) -> (b: bool)
        ensures
            rename_tab_effect(*old(self), *final(self), tab, title@, b),
    {
        let mut i: usize = 0;
        while i < self.workspaces.len()
            invariant
                i <= self.workspaces@.len(),
                self.workspaces@ == old(self).workspaces@,
                *self == *old(self),
                forall|j: int| 0 <= j < i ==> !(|w: Workspace| tab_pos(w.tabs@, tab) is Some)(#[trigger] self.workspaces@[j]),
            decreases self.workspaces@.len() - i,
        {
            match tab_position(&self.workspaces[i].tabs, tab) {
                Some(ti) => {
                    proof {
                        lemma_first_match_at(self.workspaces@, |w: Workspace| tab_pos(w.tabs@, tab) is Some, i as int);
                    }
                    let s = title.to_owned();
                    let ghost t = self.workspaces@[i as int].tabs@[ti as int];
                    self.workspaces[i].tabs[ti].title = s;
                    proof {
                        assert(self.workspaces@[i as int].tabs@ =~= old(self).workspaces@[i as int].tabs@.update(
                            ti as int,
                            Tab { title: s, ..t },
                        ));
                    }
                    return true;
                },
                None => {},
            }
            i = i + 1;
        }
        proof {
            lemma_first_match_at(self.workspaces@, |w: Workspace| tab_pos(w.tabs@, tab) is Some, i as int);
        }
        false
    }

    /// Rename workspace `ws`; `false` if it does not exist.
    pub fn rename_workspace(&mut self, ws: WorkspaceId, title: &str) -> (b: bool)
        ensures
            rename_workspace_effect(*old(self), *final(self), ws, title@, b),
    {
        match self.ws_position(ws) {
            Some(wi) => {
                self.workspaces[wi].title = title.to_owned();
                true
            },
            None => false,
        }
    }

    /// Mark notification `id` read; `false` if it does not exist.
    pub fn mark_notification_read(&mut self, id: u64) -> (b: bool)
        ensures
            mark_notification_read_effect(*old(self), *final(self), id, b),
    {
        let ghost pre = self.notifications;
        let b = self.notifications.mark_read(id);
        assert(old(self).feed().entry_seq() == pre.entry_seq());
        b
    }

    /// Remove notification `id`; `false` if it does not exist.
    pub fn dismiss_notification(&mut self, id: u64) -> (b: bool)
        ensures
            dismiss_notification_effect(*old(self), *final(self), id, b),
    {
        let ghost pre = self.notifications;
        let b = self.notifications.dismiss(id);
        assert(old(self).feed().entry_seq() == pre.entry_seq());
        b
    }

    /// Number of tabs in the closed-tab history.
    pub fn closed_tab_count(&self) -> (n: usize)
        ensures
            n == self.closed_seq().len(),
    {
        self.closed_tabs.len()
    }
}


/// `m` without the panes listed in `leaves`.
pub open spec fn drop_panes(m: Map<PaneId, Pane>, leaves: Seq<PaneId>) -> Map<PaneId, Pane> {
    Map::new(|k: PaneId| m.contains_key(k) && !leaves.contains(k), |k: PaneId| m[k])
}

/// Selects the notifications of panes not listed in `leaves`.
pub open spec fn not_in(leaves: Seq<PaneId>) -> spec_fn(Notification) -> bool {
    |n: Notification| !leaves.contains(n.pane)
}

/// Filtering by `f` and then by `g` is filtering by both.
pub proof fn lemma_filter_filter<A>(s: Seq<A>, f: spec_fn(A) -> bool, g: spec_fn(A) -> bool)
    ensures
        s.filter(f).filter(g) == s.filter(|x: A| f(x) && g(x)),
    decreases s.len(),
{
    reveal(Seq::filter);
    if s.len() > 0 {
        lemma_filter_filter(s.drop_last(), f, g);
        let x = s.last();
        let rest = s.drop_last().filter(f);
        if f(x) {
            rest.lemma_filter_push(x, g);
        }
    }
}

proof fn lemma_take_succ_contains<A>(s: Seq<A>, k: int, x: A)
    requires
        0 <= k < s.len(),
    ensures
        s.take(k + 1).contains(x) == (s.take(k).contains(x) || x == s[k]),
{
    let a = s.take(k);
    let b = s.take(k + 1);
    assert(b =~= a.push(s[k]));
    if a.contains(x) {
        let j = choose|j: int| 0 <= j < a.len() && #[trigger] a[j] == x;
        assert(b[j] == x);
    }
    if x == s[k] {
        assert(b[k] == x);
    }
    if b.contains(x) {
        let j = choose|j: int| 0 <= j < b.len() && #[trigger] b[j] == x;
        if j < k {
            assert(a[j] == x);
        }
    }
}

/// The effect of closing tab `ti` of workspace `wi`: it leaves the
/// workspace (whose active tab moves to the tab now at its position, or the
/// last one), its panes and their notifications are dropped, and it is
/// recorded in the closed-tab history.
pub open spec fn tab_closed(pre: AppState, post: AppState, wi: int, ti: int) -> bool {
    let w = pre.ws_seq()[wi];
    let t = w.tabs@[ti];
    let rest = w.tabs@.remove(ti);
    &&& same_except(pre.ws_seq(), post.ws_seq(), wi)
    &&& ws_same_fields(w, post.ws_seq()[wi])
    &&& post.ws_seq()[wi].tabs@ == rest
    &&& post.ws_seq()[wi].active_tab == (if w.active_tab == Some(t.id) {
        if rest.len() == 0 {
            None
        } else {
            Some(rest[if ti < rest.len() { ti } else { rest.len() - 1 }].id)
        }
    } else {
        w.active_tab
    })
    &&& post.pane_map() == drop_panes(pre.pane_map(), t.tree.pane_seq())
    &&& post.feed().entry_seq() == pre.feed().entry_seq().filter(not_in(t.tree.pane_seq()))
    &&& post.feed().next_id_value() == pre.feed().next_id_value()
    &&& post.closed_seq() == pre.closed_seq().push(ClosedTab { workspace: w.id, title: t.title })
    &&& post.same_active(pre)
    &&& post.next_id() == pre.next_id()
}

impl AppState {
    /// Drop the panes `leaves` and their notifications.
    fn prune_panes(&mut self, leaves: &Vec<PaneId>)
        requires
            old(self).panes_wf(),
        ensures
            final(self).panes_wf(),
            final(self).pane_map() == drop_panes(old(self).pane_map(), leaves@),
            final(self).feed().entry_seq() == old(self).feed().entry_seq().filter(not_in(leaves@)),
            final(self).feed().next_id_value() == old(self).feed().next_id_value(),
            old(self).feed().wf() ==> final(self).feed().wf(),
            final(self).same_ws(*old(self)),
            final(self).same_active(*old(self)),
            final(self).same_history(*old(self)),
    {
        let ghost m0 = self.panes.map();
        let ghost e0 = self.notifications.entry_seq();
        let ghost l = leaves@;
        proof {
            assert(drop_panes(m0, l.take(0)) =~= m0);
            assert(not_in(l.take(0)) =~= (|n: Notification| true));
            assert(e0.filter(not_in(l.take(0))) =~= e0) by {
                reveal(Seq::filter);
                assert forall|i: int| 0 <= i < e0.len() implies e0.filter(not_in(l.take(0))).contains(#[trigger] e0[i]) by {
                    e0.filter_lemma(not_in(l.take(0)));
                }
                e0.filter_lemma(not_in(l.take(0)));
                lemma_filter_all(e0, not_in(l.take(0)));
            }
        }
        let mut k: usize = 0;
        while k < leaves.len()
            invariant
                k <= l.len(),
                l == leaves@,
                self.panes.wf(),
                self.panes.map() == drop_panes(m0, l.take(k as int)),
                self.notifications.entry_seq() == e0.filter(not_in(l.take(k as int))),
                self.notifications.next_id_value() == old(self).notifications.next_id_value(),
                old(self).notifications.wf() ==> self.notifications.wf(),
                e0 == old(self).notifications.entry_seq(),
                m0 == old(self).panes.map(),
                self.workspaces == old(self).workspaces,
                self.active_workspace == old(self).active_workspace,
                self.closed_tabs == old(self).closed_tabs,
                self.ids == old(self).ids,
            decreases l.len() - k,
        {
            let p = leaves[k];
            self.panes.remove(p);
            self.notifications.prune_pane(p);
            proof {
                let pre = drop_panes(m0, l.take(k as int));
                assert forall|x: PaneId| #![auto] l.take(k + 1).contains(x) == (l.take(k as int).contains(x) || x == p) by {
                    lemma_take_succ_contains(l, k as int, x);
                }
                assert(pre.remove(p) =~= drop_panes(m0, l.take(k + 1)));
                lemma_filter_filter(e0, not_in(l.take(k as int)), |n: Notification| n.pane != p);
                assert((|x: Notification| not_in(l.take(k as int))(x) && (|n: Notification| n.pane != p)(x))
                    =~= not_in(l.take(k + 1)));
            }
            k = k + 1;
        }
        proof {
            assert(l.take(l.len() as int) =~= l);
        }
    }

    /// Close tab `ti` of workspace `wi`.
    fn close_tab_at(&mut self, wi: usize, ti: usize)
        requires
            old(self).panes_wf(),
            wi < old(self).ws_seq().len(),
            ti < old(self).ws_seq()[wi as int].tabs@.len(),
        ensures
            final(self).panes_wf(),
            tab_closed(*old(self), *final(self), wi as int, ti as int),
            old(self).feed().wf() ==> final(self).feed().wf(),
    {
        let ghost t0 = self.workspaces@[wi as int].tabs@[ti as int];
        let removed = self.workspaces[wi].tabs.remove(ti);
        let leaves = removed.panes();
        let tab_id = removed.id;
        let title = removed.title;
        self.prune_panes(&leaves);
        if self.workspaces[wi].active_tab == Some(tab_id) {
            let len = self.workspaces[wi].tabs.len();
            let new_idx = if len == 0 {
                0
            } else if ti < len {
                ti
            } else {
                len - 1
            };
            let next = if new_idx < len {
                Some(self.workspaces[wi].tabs[new_idx].id)
            } else {
                None
            };
            self.workspaces[wi].active_tab = next;
        }
        let ws_id = self.workspaces[wi].id;
        self.closed_tabs.push(ClosedTab { workspace: ws_id, title });
    }

    /// Close a tab, dropping its panes and recording it in the closed-tab
    /// history. `false` unless `ws` exists and holds `tab`.
    pub fn close_tab(&mut self, ws: WorkspaceId, tab: TabId) -> (b: bool)
        requires
            old(self).panes_wf(),
        ensures
            close_tab_effect(*old(self), *final(self), ws, tab, b),
    {
        let wi = match self.ws_position(ws) {
            Some(wi) => wi,
            None => return false,
        };
        let ti = match tab_position(&self.workspaces[wi].tabs, tab) {
            Some(ti) => ti,
            None => return false,
        };
        self.close_tab_at(wi, ti);
        true
    }

    /// Close a pane; when its tab is left empty the tab is closed too.
    /// `false` when no tab holds the pane.
    pub fn close_pane(&mut self, pane: PaneId) -> (b: bool)
        requires
            old(self).panes_wf(),
        ensures
            close_pane_effect(*old(self), *final(self), pane, b),
    {
        let (wi, ti) = match self.locate_indices(pane) {
            Some(x) => x,
            None => return false,
        };
        proof {
            lemma_first_match(self.workspaces@, |w: Workspace| tab_holding(w.tabs@, pane) is Some);
            lemma_first_match(self.workspaces@[wi as int].tabs@, |t: Tab| t.tree.pane_seq().contains(pane));
        }
        let removed = self.workspaces[wi].tabs[ti].tree.close(pane);
        let next_focus = self.workspaces[wi].tabs[ti].tree.first_leaf();
        if self.workspaces[wi].tabs[ti].focused == Some(pane) {
            self.workspaces[wi].tabs[ti].focused = next_focus;
        }
        if self.workspaces[wi].tabs[ti].zoomed == Some(pane) {
            self.workspaces[wi].tabs[ti].zoomed = None;
        }
        let tab_empty = self.workspaces[wi].tabs[ti].tree.is_empty();
        self.panes.remove(pane);
        self.notifications.prune_pane(pane);
        if tab_empty {
            let ghost mid = *self;
            self.close_tab_at(wi, ti);
            proof {
                assert(drop_panes(mid.pane_map(), seq![]) =~= mid.pane_map());
                assert(mid.ws_seq()[wi as int].tabs@.remove(ti as int) =~= old(self).ws_seq()[wi as int].tabs@.remove(ti as int));
                assert(mid.ws_seq()[wi as int].tabs@[ti as int].tree.pane_seq() =~= Seq::<PaneId>::empty());
                let e = mid.feed().entry_seq();
                assert(e.filter(not_in(Seq::<PaneId>::empty())) =~= e) by {
                    lemma_filter_all(e, not_in(Seq::<PaneId>::empty()));
                }
            }
        }
        removed
    }
}

/// Filtering by a predicate that every element meets changes nothing.
pub proof fn lemma_filter_all<A>(s: Seq<A>, f: spec_fn(A) -> bool)
    requires
        forall|i: int| 0 <= i < s.len() ==> f(#[trigger] s[i]),
    ensures
        s.filter(f) == s,
    decreases s.len(),
{
    reveal(Seq::filter);
    if s.len() > 0 {
        lemma_filter_all(s.drop_last(), f);
        assert(s.drop_last().push(s.last()) =~= s);
    }
}


/// The panes of `tabs`, tab by tab.
pub open spec fn tabs_leaves(tabs: Seq<Tab>) -> Seq<PaneId>
    decreases tabs.len(),
{
    if tabs.len() == 0 {
        Seq::empty()
    } else {
        tabs_leaves(tabs.drop_last()) + tabs.last().tree.pane_seq()
    }
}

/// The working directory recorded for `pane`, if any.
pub open spec fn cwd_of(m: Map<PaneId, Pane>, pane: PaneId) -> Option<String> {
    if m.contains_key(pane) {
        m[pane].cwd
    } else {
        None
    }
}

/// The effect of splitting `target` (apart from what the new pane hosts):
/// one id is consumed for the new pane, which takes the second half of the
/// split and the focus of the first tab holding `target`.
pub open spec fn split_effect(pre: AppState, post: AppState, target: PaneId, orientation: Orientation, r: Option<PaneId>) -> bool {
    match locate(pre.ws_seq(), target) {
        None => r is None && unchanged(pre, post) && post.next_id() == pre.next_id(),
        Some((wi, ti)) => {
            let n = PaneId(pre.next_id());
            let w = pre.ws_seq()[wi];
            let t = w.tabs@[ti];
            let t2 = post.ws_seq()[wi].tabs@[ti];
            &&& r == Some(n)
            &&& post.next_id() == pre.next_id() + 1
            &&& same_except(pre.ws_seq(), post.ws_seq(), wi)
            &&& ws_same_fields(w, post.ws_seq()[wi])
            &&& post.ws_seq()[wi].active_tab == w.active_tab
            &&& same_except(w.tabs@, post.ws_seq()[wi].tabs@, ti)
            &&& t2.id == t.id && t2.title == t.title && t2.zoomed == t.zoomed
            &&& t2.focused == Some(n)
            &&& t2.tree.root_node() == Some(spec_split(t.tree.root_node()->0, target, n, orientation, false).0)
            &&& t2.tree.pane_seq() == splice(
                t.tree.pane_seq(),
                first_index(t.tree.pane_seq(), target)->0,
                split_pair(target, n, false),
            )
            &&& post.pane_map() == pre.pane_map().insert(n, post.pane_map()[n])
            &&& post.same_active(pre)
            &&& post.same_feed(pre)
            &&& post.closed_seq() == pre.closed_seq()
        },
    }
}

/// `p` is a fresh terminal pane `n` in directory `cwd`.
pub open spec fn terminal_in(p: Pane, n: PaneId, cwd: Option<String>) -> bool {
    p.cwd == cwd && is_fresh_terminal(Pane { cwd: None, ..p }, n)
}

/// Whether a notification for `pane`, held by tab `ti` of workspace `wi`,
/// is for the pane the user is looking at.
pub open spec fn is_looking_at(s: AppState, pane: PaneId, wi: int, ti: int) -> bool {
    let w = s.ws_seq()[wi];
    &&& s.focused_of() == Some(pane)
    &&& s.active_ws() == Some(w.id)
    &&& s.ws_seq()[ws_pos(s.ws_seq(), w.id)->0].active_tab == Some(w.tabs@[ti].id)
}

/// Position of the first workspace holding tab `tab`, and of the tab in it.
pub open spec fn tab_location(ws: Seq<Workspace>, tab: TabId) -> Option<(int, int)> {
    match ws_with_tab(ws, tab) {
        Some(wi) => Some((wi, tab_pos(ws[wi].tabs@, tab)->0)),
        None => None,
    }
}

impl AppState {
    /// Split `target` in the first tab holding it, adding a terminal pane in
    /// the same working directory and focusing it. `None` when no tab holds
    /// `target`.
    pub fn split_pane(&mut self, target: PaneId, orientation: Orientation) -> (r: Option<PaneId>)
        requires
            old(self).next_id() < u64::MAX,
            old(self).panes_wf(),
        ensures
            split_pane_effect(*old(self), *final(self), target, orientation, r),
    {
        let (wi, ti) = match self.locate_indices(target) {
            Some(x) => x,
            None => return None,
        };
        proof {
            lemma_first_match(self.workspaces@, |w: Workspace| tab_holding(w.tabs@, target) is Some);
            lemma_first_match(self.workspaces@[wi as int].tabs@, |t: Tab| t.tree.pane_seq().contains(target));
        }
        let new_pane = self.ids.pane();
        let ok = self.workspaces[wi].tabs[ti].tree.split(target, new_pane, orientation, false);
        if ok {
            self.workspaces[wi].tabs[ti].focused = Some(new_pane);
        }
        let inherited_cwd = match self.panes.get(target) {
            Some(p) => crate::pane::clone_opt_string(&p.cwd),
            None => None,
        };
        let mut pane = Pane::terminal(new_pane);
        pane.cwd = inherited_cwd;
        self.panes.insert(pane);
        proof {
            let t = old(self).workspaces@[wi as int].tabs@[ti as int];
            assert(t.tree.pane_seq().len() > 0);
            if t.tree.root_node() is None {
                assert(t.tree.pane_seq() =~= Seq::<PaneId>::empty());
            }
        }
        Some(new_pane)
    }

    /// Split the focused pane; see [`AppState::split_pane`].
    pub fn split_focused(&mut self, orientation: Orientation) -> (r: Option<PaneId>)
        requires
            old(self).next_id() < u64::MAX,
            old(self).panes_wf(),
        ensures
            split_focused_effect(*old(self), *final(self), orientation, r),
    {
        match self.focused_pane() {
            Some(f) => self.split_pane(f, orientation),
            None => None,
        }
    }

    /// Split the focused pane into a new browser pane showing `url`.
    pub fn split_focused_browser(&mut self, url: &str, orientation: Orientation) -> (r: Option<PaneId>)
        requires
            old(self).next_id() < u64::MAX,
            old(self).panes_wf(),
        ensures
            split_focused_browser_effect(*old(self), *final(self), url@, orientation, r),
    {
        let id = match self.split_focused(orientation) {
            Some(id) => id,
            None => return None,
        };
        let ghost mid = self.panes.map();
        self.panes.replace(Pane::browser(id, url));
        proof {
            assert(mid.insert(id, self.panes.map()[id]) =~= self.panes.map());
            assert(old(self).pane_map().insert(id, self.panes.map()[id]) =~= self.panes.map());
        }
        Some(id)
    }

    /// Navigate browser pane `pane` to `url`; `false` unless it is a browser pane.
    pub fn set_browser_url(&mut self, pane: PaneId, url: &str) -> (b: bool)
        requires
            old(self).panes_wf(),
        ensures
            set_browser_url_effect(*old(self), *final(self), pane, url@, b),
    {
        let is_browser = match self.panes.get(pane) {
            Some(p) => p.is_browser(),
            None => false,
        };
        if is_browser {
            self.panes.set_kind(pane, PaneKind::Browser { url: url.to_owned() });
            true
        } else {
            false
        }
    }

    /// Raise an attention notification on `pane` and set its ring; a
    /// notification for the pane being looked at sets no ring and is read at
    /// once. Returns its id, or `None` when no tab holds the pane.
    pub fn notify(&mut self, pane: PaneId, title: &str, body: &str, now_ms: u64) -> (r: Option<u64>)
        requires
            old(self).panes_wf(),
            old(self).feed().next_id_value() < u64::MAX,
        ensures
            notify_effect(*old(self), *final(self), pane, title@, body@, now_ms, r),
    {
        let (wi, ti) = match self.locate_indices(pane) {
            Some(x) => x,
            None => return None,
        };
        let ws_id = self.workspaces[wi].id;
        let tab_id = self.workspaces[wi].tabs[ti].id;
        let looking = self.focused_pane() == Some(pane) && self.active_workspace == Some(ws_id) && match self.ws_position(ws_id) {
            Some(k) => self.workspaces[k].active_tab == Some(tab_id),
            None => false,
        };
        proof {
            lemma_first_match(self.workspaces@, |w: Workspace| w.id == ws_id);
        }
        let ring = if looking {
            RingState::Idle
        } else {
            RingState::Attention
        };
        self.panes.set_ring(pane, ring);
        let ghost before = self.notifications.entry_seq();
        let id = self.notifications.push(ws_id, tab_id, pane, title, body, now_ms);
        if looking {
            let ghost pushed = self.notifications.entry_seq();
            self.notifications.mark_pane_read(pane);
            proof {
                let e = self.notifications.entry_seq();
                assert((|n: Notification| n.pane == pane) =~= of_pane(pane));
                assert(e.drop_last() =~= mark_where(before, of_pane(pane)));
            }
        }
        Some(id)
    }

    /// Close every tab of the active workspace but its active one, in order;
    /// returns how many were closed.
    pub fn close_other_tabs(&mut self) -> (n: usize)
        requires
            old(self).panes_wf(),
        ensures
            final(self).panes_wf(),
            old(self).feed().wf() ==> final(self).feed().wf(),
            final(self).same_active(*old(self)),
            final(self).next_id() == old(self).next_id(),
            match old(self).active_ws() {
                Some(a) => match ws_pos(old(self).ws_seq(), a) {
                    Some(wi) => {
                        let w = old(self).ws_seq()[wi];
                        let keep = |t: Tab| Some(t.id) == w.active_tab;
                        let gone = w.tabs@.filter(|t: Tab| Some(t.id) != w.active_tab);
                        &&& n == gone.len()
                        &&& same_except(old(self).ws_seq(), final(self).ws_seq(), wi)
                        &&& ws_same_fields(w, final(self).ws_seq()[wi])
                        &&& final(self).ws_seq()[wi].active_tab == w.active_tab
                        &&& final(self).ws_seq()[wi].tabs@ == w.tabs@.filter(keep)
                        &&& final(self).closed_seq() == old(self).closed_seq() + gone.map_values(
                            |t: Tab| ClosedTab { workspace: w.id, title: t.title },
                        )
                        &&& final(self).pane_map() == drop_panes(old(self).pane_map(), tabs_leaves(gone))
                        &&& final(self).feed().entry_seq() == old(self).feed().entry_seq().filter(not_in(tabs_leaves(gone)))
                        &&& final(self).feed().next_id_value() == old(self).feed().next_id_value()
                    },
                    None => n == 0 && unchanged(*old(self), *final(self)),
                },
                None => n == 0 && unchanged(*old(self), *final(self)),
            },
    {
        let a = match self.active_workspace {
            Some(a) => a,
            None => return 0,
        };
        let wi = match self.ws_position(a) {
            Some(wi) => wi,
            None => return 0,
        };
        let keep = self.workspaces[wi].active_tab;
        let ghost w0 = self.workspaces@[wi as int];
        let ghost keepf = |t: Tab| Some(t.id) == keep;
        let ghost gonef = |t: Tab| Some(t.id) != keep;
        let total = self.workspaces[wi].tabs.len();
        let mut closed: usize = 0;
        let mut i: usize = 0;
        let mut j: usize = 0;
        proof {
            reveal(Seq::filter);
            assert(w0.tabs@.take(0).filter(gonef) =~= Seq::<Tab>::empty());
            let e = self.notifications.entry_seq();
            lemma_filter_all(e, not_in(Seq::<PaneId>::empty()));
            assert(self.panes.map() =~= drop_panes(self.panes.map(), Seq::<PaneId>::empty()));
            assert(self.closed_tabs@ =~= self.closed_tabs@ + Seq::<Tab>::empty().map_values(
                |t: Tab| ClosedTab { workspace: w0.id, title: t.title },
            ));
        }
        while i < self.workspaces[wi].tabs.len()
            invariant
                total == w0.tabs@.len(),
                wi < self.workspaces@.len(),
                self.panes.wf(),
                j <= w0.tabs@.len(),
                i <= self.workspaces@[wi as int].tabs@.len(),
                self.workspaces@[wi as int].tabs@ == w0.tabs@.take(j as int).filter(keepf) + w0.tabs@.skip(j as int),
                i == w0.tabs@.take(j as int).filter(keepf).len(),
                closed == w0.tabs@.take(j as int).filter(gonef).len(),
                same_except(old(self).workspaces@, self.workspaces@, wi as int),
                ws_same_fields(w0, self.workspaces@[wi as int]),
                self.workspaces@[wi as int].active_tab == keep,
                w0 == old(self).workspaces@[wi as int],
                keep == w0.active_tab,
                self.closed_tabs@ == old(self).closed_tabs@ + w0.tabs@.take(j as int).filter(gonef).map_values(
                    |t: Tab| ClosedTab { workspace: w0.id, title: t.title },
                ),
                self.panes.map() == drop_panes(old(self).panes.map(), tabs_leaves(w0.tabs@.take(j as int).filter(gonef))),
                self.notifications.entry_seq() == old(self).notifications.entry_seq().filter(
                    not_in(tabs_leaves(w0.tabs@.take(j as int).filter(gonef))),
                ),
                self.notifications.next_id_value() == old(self).notifications.next_id_value(),
                self.active_workspace == old(self).active_workspace,
                self.ids.next_value() == old(self).ids.next_value(),
                old(self).notifications.wf() ==> self.notifications.wf(),
                keepf == (|t: Tab| Some(t.id) == keep),
                gonef == (|t: Tab| Some(t.id) != keep),
            decreases w0.tabs@.len() - j,
        {
            proof {
                assert(w0.tabs@.take(j as int).filter(keepf).len() + w0.tabs@.skip(j as int).len() == self.workspaces@[wi as int].tabs@.len());
                assert(self.workspaces@[wi as int].tabs@[i as int] == w0.tabs@[j as int]);
                assert(w0.tabs@.take(j + 1) =~= w0.tabs@.take(j as int).push(w0.tabs@[j as int]));
                w0.tabs@.take(j as int).lemma_filter_push(w0.tabs@[j as int], keepf);
                w0.tabs@.take(j as int).lemma_filter_push(w0.tabs@[j as int], gonef);
                w0.tabs@.take(j as int).lemma_filter_len(gonef);
                assert(j < w0.tabs@.len());
            }
            if Some(self.workspaces[wi].tabs[i].id) != keep {
                let ghost pre = *self;
                let ghost t = w0.tabs@[j as int];
                let ghost g0 = w0.tabs@.take(j as int).filter(gonef);
                let ghost l0 = tabs_leaves(g0);
                self.close_tab_at(wi, i);
                proof {
                    assert(self.workspaces@[wi as int].tabs@ =~= w0.tabs@.take(j + 1).filter(keepf) + w0.tabs@.skip(j + 1));
                    let g1 = w0.tabs@.take(j + 1).filter(gonef);
                    assert(g1 == g0.push(t));
                    assert(g1.drop_last() =~= g0);
                    assert(tabs_leaves(g1) == l0 + t.tree.pane_seq());
                    let tl = t.tree.pane_seq();
                    assert forall|k: PaneId| #![auto] (l0 + tl).contains(k) == (l0.contains(k) || tl.contains(k)) by {
                        crate::split::lemma_concat_contains(l0, tl, k);
                    }
                    assert(self.panes.map() =~= drop_panes(old(self).panes.map(), l0 + tl));
                    let e = old(self).notifications.entry_seq();
                    lemma_filter_filter(e, not_in(l0), not_in(tl));
                    assert((|x: Notification| not_in(l0)(x) && not_in(tl)(x)) =~= not_in(l0 + tl));
                    assert(g1.map_values(|t: Tab| ClosedTab { workspace: w0.id, title: t.title }) =~= g0.map_values(
                        |t: Tab| ClosedTab { workspace: w0.id, title: t.title },
                    ).push(ClosedTab { workspace: w0.id, title: t.title }));
                    assert(self.closed_tabs@ =~= old(self).closed_tabs@ + g1.map_values(
                        |t: Tab| ClosedTab { workspace: w0.id, title: t.title },
                    ));
                }
                closed = closed + 1;
            } else {
                proof {
                    assert(self.workspaces@[wi as int].tabs@ =~= w0.tabs@.take(j + 1).filter(keepf) + w0.tabs@.skip(j + 1));
                    assert(w0.tabs@.take(j + 1).filter(gonef) == w0.tabs@.take(j as int).filter(gonef));
                }
                i = i + 1;
            }
            j = j + 1;
        }
        proof {
            assert(w0.tabs@.take(j as int).filter(keepf).len() + w0.tabs@.skip(j as int).len() == self.workspaces@[wi as int].tabs@.len());
            assert(j == w0.tabs@.len());
            assert(w0.tabs@.take(j as int) =~= w0.tabs@);
            assert(w0.tabs@.skip(j as int) =~= Seq::<Tab>::empty());
            assert(self.workspaces@[wi as int].tabs@ =~= w0.tabs@.filter(keepf));
            assert(self.panes.map() == drop_panes(old(self).panes.map(), tabs_leaves(w0.tabs@.filter(gonef))));
        }
        closed
    }
}


/// `min(to, len - 1)`, or 0 for an empty sequence.
pub open spec fn clamp_index(to: int, len: int) -> int {
    if len == 0 {
        0
    } else if to < len - 1 {
        to
    } else {
        len - 1
    }
}

/// `s` with the element at `from` moved to position `to`.
pub open spec fn moved<A>(s: Seq<A>, from: int, to: int) -> Seq<A> {
    s.remove(from).insert(to, s[from])
}

impl AppState {
    /// Reopen the most recently closed tab: a fresh tab in its original
    /// workspace if that still exists, else in the active one. The history
    /// entry is consumed even when there is nowhere to reopen it.
    pub fn reopen_closed_tab(&mut self) -> (r: Option<TabId>)
        requires
            old(self).next_id() + 2 <= u64::MAX,
            old(self).panes_wf(),
        ensures
            reopen_closed_tab_effect(*old(self), *final(self), r),
    {
        let closed = match self.closed_tabs.pop() {
            Some(c) => c,
            None => return None,
        };
        let ws = if self.ws_position(closed.workspace).is_some() {
            closed.workspace
        } else {
            match self.active_workspace {
                Some(a) => a,
                None => return None,
            }
        };
        self.add_tab(ws)
    }

    /// Close a workspace, dropping its panes and their notifications; the
    /// active workspace moves to the one now at its position (or the last)
    /// when it was the one closed. `false` if it does not exist.
    pub fn close_workspace(&mut self, ws: WorkspaceId) -> (b: bool)
        requires
            old(self).panes_wf(),
        ensures
            close_workspace_effect(*old(self), *final(self), ws, b),
    {
        let wi = match self.ws_position(ws) {
            Some(wi) => wi,
            None => return false,
        };
        let removed = self.workspaces.remove(wi);
        let mut leaves: Vec<PaneId> = Vec::new();
        let mut k: usize = 0;
        while k < removed.tabs.len()
            invariant
                k <= removed.tabs@.len(),
                leaves@ == tabs_leaves(removed.tabs@.take(k as int)),
            decreases removed.tabs@.len() - k,
        {
            let mut ps = removed.tabs[k].panes();
            leaves.append(&mut ps);
            proof {
                assert(removed.tabs@.take(k + 1).drop_last() =~= removed.tabs@.take(k as int));
            }
            k = k + 1;
        }
        proof {
            assert(removed.tabs@.take(k as int) =~= removed.tabs@);
        }
        self.prune_panes(&leaves);
        if self.active_workspace == Some(ws) {
            let len = self.workspaces.len();
            let new_idx = if len == 0 {
                0
            } else if wi < len - 1 {
                wi
            } else {
                len - 1
            };
            self.active_workspace = if new_idx < len {
                Some(self.workspaces[new_idx].id)
            } else {
                None
            };
        }
        true
    }

    /// Move workspace `ws` to sidebar position `to` (clamped to the last
    /// position); `false` if it does not exist.
    pub fn reorder_workspace(&mut self, ws: WorkspaceId, to: usize) -> (b: bool)
        ensures
            reorder_workspace_effect(*old(self), *final(self), ws, to, b),
    {
        let from = match self.ws_position(ws) {
            Some(i) => i,
            None => return false,
        };
        let len = self.workspaces.len();
        let to = if to < len - 1 {
            to
        } else {
            len - 1
        };
        let w = self.workspaces.remove(from);
        self.workspaces.insert(to, w);
        true
    }

    /// Move tab `tab` of workspace `ws` to position `to` (clamped to the last
    /// position); `false` unless `ws` exists and holds `tab`.
    pub fn reorder_tab(&mut self, ws: WorkspaceId, tab: TabId, to: usize) -> (b: bool)
        ensures
            reorder_tab_effect(*old(self), *final(self), ws, tab, to, b),
    {
        let wi = match self.ws_position(ws) {
            Some(i) => i,
            None => return false,
        };
        let from = match tab_position(&self.workspaces[wi].tabs, tab) {
            Some(i) => i,
            None => return false,
        };
        let len = self.workspaces[wi].tabs.len();
        let to = if to < len - 1 {
            to
        } else {
            len - 1
        };
        let t = self.workspaces[wi].tabs.remove(from);
        self.workspaces[wi].tabs.insert(to, t);
        true
    }

    /// Position of the first workspace holding `tab`, and of the tab in it.
    fn tab_indices(&self, tab: TabId) -> (r: Option<(usize, usize)>)
        ensures
            match r {
                Some((wi, ti)) => tab_location(self.ws_seq(), tab) == Some((wi as int, ti as int)),
                None => tab_location(self.ws_seq(), tab) is None,
            },
            r matches Some((wi, ti)) ==> wi < self.ws_seq().len() && ti < self.ws_seq()[wi as int].tabs@.len()
                && self.ws_seq()[wi as int].tabs@[ti as int].id == tab,
    {
        let mut i: usize = 0;
        while i < self.workspaces.len()
            invariant
                i <= self.workspaces@.len(),
                forall|j: int| 0 <= j < i ==> !(|w: Workspace| tab_pos(w.tabs@, tab) is Some)(#[trigger] self.workspaces@[j]),
            decreases self.workspaces@.len() - i,
        {
            match tab_position(&self.workspaces[i].tabs, tab) {
                Some(ti) => {
                    proof {
                        lemma_first_match_at(self.workspaces@, |w: Workspace| tab_pos(w.tabs@, tab) is Some, i as int);
                    }
                    return Some((i, ti));
                },
                None => {},
            }
            i = i + 1;
        }
        proof {
            lemma_first_match_at(self.workspaces@, |w: Workspace| tab_pos(w.tabs@, tab) is Some, i as int);
        }
        None
    }

    /// Take tab `ti` out of workspace `wi`; when it was the active tab the
    /// first remaining tab becomes active. Its panes stay.
    fn detach_tab(&mut self, wi: usize, ti: usize) -> (t: Tab)
        requires
            wi < old(self).ws_seq().len(),
            ti < old(self).ws_seq()[wi as int].tabs@.len(),
        ensures
            detached(*old(self), *final(self), wi as int, ti as int),
            t == old(self).ws_seq()[wi as int].tabs@[ti as int],
            final(self).same_active(*old(self)),
            final(self).same_panes(*old(self)),
            final(self).same_feed(*old(self)),
            final(self).same_history(*old(self)),
    {
        let t = self.workspaces[wi].tabs.remove(ti);
        if self.workspaces[wi].active_tab == Some(t.id) {
            let first = if self.workspaces[wi].tabs.len() > 0 {
                Some(self.workspaces[wi].tabs[0].id)
            } else {
                None
            };
            self.workspaces[wi].active_tab = first;
        }
        t
    }

    /// Move tab `tab` (with its panes) from its workspace to `dest`, where it
    /// becomes the active tab of the now active `dest`. Refused when the tab
    /// is not found, is the only tab of its workspace, `dest` is that
    /// workspace, or `dest` does not exist.
    pub fn move_tab_to_workspace(&mut self, tab: TabId, dest: WorkspaceId) -> (b: bool)
        ensures
            final(self).same_panes(*old(self)),
            final(self).same_feed(*old(self)),
            final(self).same_history(*old(self)),
            match tab_location(old(self).ws_seq(), tab) {
                None => !b && unchanged(*old(self), *final(self)),
                Some((si, ti)) => {
                    let src = old(self).ws_seq()[si];
                    if src.id == dest || ws_pos(old(self).ws_seq(), dest) is None || src.tabs@.len() < 2 {
                        !b && unchanged(*old(self), *final(self))
                    } else {
                        let di = ws_pos(old(self).ws_seq(), dest)->0;
                        let mid = final(self).ws_seq()[si];
                        let d = old(self).ws_seq()[di];
                        let d2 = final(self).ws_seq()[di];
                        &&& b
                        &&& di != si
                        &&& final(self).ws_seq().len() == old(self).ws_seq().len()
                        &&& forall|k: int| 0 <= k < old(self).ws_seq().len() && k != si && k != di
                            ==> #[trigger] final(self).ws_seq()[k] == old(self).ws_seq()[k]
                        &&& detached_ws(src, mid, ti)
                        &&& ws_same_fields(d, d2)
                        &&& d2.tabs@ == d.tabs@.push(src.tabs@[ti])
                        &&& d2.active_tab == Some(tab)
                        &&& final(self).active_ws() == Some(dest)
                    }
                },
            },
    {
        let (si, ti) = match self.tab_indices(tab) {
            Some(x) => x,
            None => return false,
        };
        let src_id = self.workspaces[si].id;
        if src_id == dest {
            return false;
        }
        let di = match self.ws_position(dest) {
            Some(di) => di,
            None => return false,
        };
        if self.workspaces[si].tabs.len() < 2 {
            return false;
        }
        let t = self.detach_tab(si, ti);
        self.workspaces[di].tabs.push(t);
        self.workspaces[di].active_tab = Some(tab);
        self.active_workspace = Some(dest);
        true
    }

    /// Move tab `tab` into a new workspace, titled like the tab, which
    /// becomes active. Refused when the tab is not found or is the only tab
    /// of its workspace. Returns the new workspace's id.
    pub fn move_tab_to_new_workspace(&mut self, tab: TabId) -> (r: Option<WorkspaceId>)
        requires
            old(self).next_id() < u64::MAX,
        ensures
            final(self).same_panes(*old(self)),
            final(self).same_feed(*old(self)),
            final(self).closed_seq() == old(self).closed_seq(),
            match tab_location(old(self).ws_seq(), tab) {
                None => r is None && unchanged(*old(self), *final(self)),
                Some((si, ti)) => {
                    let src = old(self).ws_seq()[si];
                    if src.tabs@.len() < 2 {
                        r is None && unchanged(*old(self), *final(self))
                    } else {
                        let id = WorkspaceId(old(self).next_id());
                        let w = final(self).ws_seq().last();
                        &&& r == Some(id)
                        &&& final(self).next_id() == old(self).next_id() + 1
                        &&& final(self).ws_seq().len() == old(self).ws_seq().len() + 1
                        &&& same_except(old(self).ws_seq(), final(self).ws_seq().drop_last(), si)
                        &&& detached_ws(src, final(self).ws_seq()[si], ti)
                        &&& w.id == id && w.title == src.tabs@[ti].title && w.cwd is None
                        &&& w.tabs@ == seq![src.tabs@[ti]]
                        &&& w.active_tab == Some(tab)
                        &&& final(self).active_ws() == Some(id)
                    }
                },
            },
    {
        let (si, ti) = match self.tab_indices(tab) {
            Some(x) => x,
            None => return None,
        };
        if self.workspaces[si].tabs.len() < 2 {
            return None;
        }
        let t = self.detach_tab(si, ti);
        let title = t.title.clone();
        let ws_id = self.ids.workspace();
        let mut tabs = Vec::new();
        tabs.push(t);
        self.workspaces.push(Workspace { id: ws_id, title, cwd: None, tabs, active_tab: Some(tab) });
        self.active_workspace = Some(ws_id);
        proof {
            assert(self.workspaces@[self.workspaces@.len() - 1].tabs@ =~= seq![old(self).workspaces@[si as int].tabs@[ti as int]]);
        }
        Some(ws_id)
    }
}

/// `w2` is `w` with tab `ti` taken out; when it was the active tab the first
/// remaining tab becomes active.
pub open spec fn detached_ws(w: Workspace, w2: Workspace, ti: int) -> bool {
    let rest = w.tabs@.remove(ti);
    &&& ws_same_fields(w, w2)
    &&& w2.tabs@ == rest
    &&& w2.active_tab == (if w.active_tab == Some(w.tabs@[ti].id) {
        if rest.len() > 0 {
            Some(rest[0].id)
        } else {
            None
        }
    } else {
        w.active_tab
    })
}

/// `post` is `pre` with tab `ti` of workspace `wi` detached.
pub open spec fn detached(pre: AppState, post: AppState, wi: int, ti: int) -> bool {
    &&& same_except(pre.ws_seq(), post.ws_seq(), wi)
    &&& detached_ws(pre.ws_seq()[wi], post.ws_seq()[wi], ti)
}

/// Workspace ids are distinct, and so are the tab ids within each
/// workspace (as the id generator makes them).
pub open spec fn ids_distinct(ws: Seq<Workspace>) -> bool {
    &&& forall|i: int, j: int| 0 <= i < j < ws.len() ==> (#[trigger] ws[i]).id != (#[trigger] ws[j]).id
    &&& forall|k: int, a: int, b: int|
        0 <= k < ws.len() && 0 <= a < b < ws[k].tabs@.len() ==> (#[trigger] ws[k].tabs@[a]).id
            != (#[trigger] ws[k].tabs@[b]).id
}

/// Focusing a pane that some tab holds makes it the focused pane of the
/// app, clears its ring and leaves none of its notifications unread.
pub proof fn law_focus_pane_focuses(pre: AppState, post: AppState, pane: PaneId)
    requires
        focus_effect(pre, post, pane),
        locate(pre.ws_seq(), pane) is Some,
        ids_distinct(pre.ws_seq()),
    ensures
        post.focused_of() == Some(pane),
        pre.pane_map().contains_key(pane) ==> post.pane_map()[pane].ring == RingState::Idle,
        crate::notification::count_unread_for(post.feed().entry_seq(), pane) == 0,
{
    let ws = pre.ws_seq();
    let wi = ws_holding(ws, pane)->0;
    lemma_first_match(ws, |w: Workspace| tab_holding(w.tabs@, pane) is Some);
    lemma_first_match(ws[wi].tabs@, |t: Tab| t.tree.pane_seq().contains(pane));
    let ti = tab_holding(ws[wi].tabs@, pane)->0;
    let w = ws[wi];
    let t = w.tabs@[ti];
    let pw = post.ws_seq();
    assert forall|j: int| 0 <= j < wi implies !((|x: Workspace| x.id == w.id)(#[trigger] pw[j])) by {
        assert(pw[j] == ws[j]);
    }
    lemma_first_match_at(pw, |x: Workspace| x.id == w.id, wi);
    assert(ws_pos(pw, w.id) == Some(wi));
    let ptabs = pw[wi].tabs@;
    assert forall|j: int| 0 <= j < ti implies !((|x: Tab| x.id == t.id)(#[trigger] ptabs[j])) by {
        assert(ptabs[j] == w.tabs@[j]);
    }
    lemma_first_match_at(ptabs, |x: Tab| x.id == t.id, ti);
    assert(active_tab_pos(pw[wi]) == Some(ti));
    assert(ptabs[ti].focused == Some(pane));
    crate::notification::law_mark_pane_read_clears_only_that_pane(pre.feed().entry_seq(), pane, pane);
    assert(of_pane(pane) =~= (|n: Notification| n.pane == pane));
}

/// What [`AppState::focus_workspace`] does: how the state after the call relates
/// to the state before it, and what the call returns.
pub open spec fn focus_workspace_effect(pre: AppState, post: AppState, ws: WorkspaceId, b: bool) -> bool {
    &&& (b == ws_pos(pre.ws_seq(), ws) is Some)
    &&& (post.active_ws() == (if b {
        Some(ws)
    } else {
        pre.active_ws()
    }))
    &&& (post.same_ws(pre))
    &&& (post.same_panes(pre))
    &&& (post.same_feed(pre))
    &&& (post.same_history(pre))
}

/// What [`AppState::focus_tab`] does: how the state after the call relates
/// to the state before it, and what the call returns.
pub open spec fn focus_tab_effect(pre: AppState, post: AppState, ws: WorkspaceId, tab: TabId, b: bool) -> bool {
    &&& (b == (match ws_pos(pre.ws_seq(), ws) {
        Some(wi) => tab_pos(pre.ws_seq()[wi].tabs@, tab) is Some,
        None => false,
    }))
    &&& (b ==> post.ws_seq() == pre.ws_seq().update(
        ws_pos(pre.ws_seq(), ws)->0,
        Workspace { active_tab: Some(tab), ..pre.ws_seq()[ws_pos(pre.ws_seq(), ws)->0] },
    ))
    &&& (b ==> post.active_ws() == Some(ws))
    &&& (!b ==> post.same_ws(pre) && post.same_active(pre))
    &&& (post.same_panes(pre))
    &&& (post.same_feed(pre))
    &&& (post.same_history(pre))
}

/// What [`AppState::focus_adjacent_tab`] does: how the state after the call relates
/// to the state before it, and what the call returns.
pub open spec fn focus_adjacent_tab_effect(pre: AppState, post: AppState, forward: bool, b: bool) -> bool {
    &&& (b == (match pre.active_ws() {
        Some(a) => match ws_pos(pre.ws_seq(), a) {
            Some(wi) => pre.ws_seq()[wi].tabs@.len() >= 2,
            None => false,
        },
        None => false,
    }))
    &&& (b ==> ({
        let wi = ws_pos(pre.ws_seq(), pre.active_ws()->0)->0;
        let w = pre.ws_seq()[wi];
        let n = w.tabs@.len() as int;
        let cur = match active_tab_pos(w) {
            Some(c) => c,
            None => 0,
        };
        post.ws_seq() == pre.ws_seq().update(
            wi,
            Workspace { active_tab: Some(w.tabs@[adjacent_index(cur, n, forward)].id), ..w },
        )
    }))
    &&& (!b ==> post.same_ws(pre))
    &&& (post.same_active(pre))
    &&& (post.same_panes(pre))
    &&& (post.same_feed(pre))
    &&& (post.same_history(pre))
}

/// What [`AppState::focus_pane`] does: how the state after the call relates
/// to the state before it, and what the call returns.
pub open spec fn focus_pane_effect(pre: AppState, post: AppState, pane: PaneId, b: bool) -> bool {
    &&& (b == locate(pre.ws_seq(), pane) is Some)
    &&& (focus_effect(pre, post, pane))
    &&& (post.panes_wf())
    &&& (pre.feed().wf() ==> post.feed().wf())
}

/// What [`AppState::focus_dir`] does: how the state after the call relates
/// to the state before it, and what the call returns.
pub open spec fn focus_dir_effect(pre: AppState, post: AppState, dir: FocusDir, b: bool) -> bool {
    &&& (post.panes_wf())
    &&& (match pre.active_positions() {
        Some((wi, ti)) => {
            let t = pre.ws_seq()[wi].tabs@[ti];
            match t.focused {
                Some(f) => match spec_neighbor(t.tree.layout_of(nav_square()), f, dir) {
                    Some(n) => b == locate(pre.ws_seq(), n) is Some
                        && focus_effect(pre, post, n),
                    None => !b && unchanged(pre, post),
                },
                None => !b && unchanged(pre, post),
            }
        },
        None => !b && unchanged(pre, post),
    })
}

/// What [`AppState::new_workspace`] does: how the state after the call relates
/// to the state before it, and what the call returns.
pub open spec fn new_workspace_effect(pre: AppState, post: AppState, title: Seq<char>, id: WorkspaceId) -> bool {
    &&& (({
        let n = pre.next_id();
        let pane = PaneId((n + 1) as u64);
        let tab = TabId((n + 2) as u64);
        let w = post.ws_seq().last();
        &&& id == WorkspaceId(n)
        &&& post.next_id() == n + 3
        &&& post.ws_seq().len() == pre.ws_seq().len() + 1
        &&& post.ws_seq().drop_last() == pre.ws_seq()
        &&& w.id == id
        &&& w.title@ == title
        &&& w.cwd is None
        &&& w.tabs@.len() == 1
        &&& is_new_tab(w.tabs@[0], tab, seq!['1'], pane)
        &&& w.active_tab == Some(tab)
        &&& post.pane_map() == pre.pane_map().insert(pane, post.pane_map()[pane])
        &&& is_fresh_terminal(post.pane_map()[pane], pane)
        &&& post.active_ws() == (if pre.active_ws() is None {
            Some(id)
        } else {
            pre.active_ws()
        })
    }))
    &&& (post.panes_wf())
    &&& (post.same_feed(pre))
    &&& (post.closed_seq() == pre.closed_seq())
}

/// What [`AppState::close_pane`] does: how the state after the call relates
/// to the state before it, and what the call returns.
pub open spec fn close_pane_effect(pre: AppState, post: AppState, pane: PaneId, b: bool) -> bool {
    &&& (post.panes_wf())
    &&& (pre.feed().wf() ==> post.feed().wf())
    &&& (b == locate(pre.ws_seq(), pane) is Some)
    &&& (!b ==> unchanged(pre, post))
    &&& (b ==> ({
        let (wi, ti) = locate(pre.ws_seq(), pane)->0;
        let w = pre.ws_seq()[wi];
        let t = w.tabs@[ti];
        let leaves = t.tree.pane_seq();
        let rest = leaves.remove(first_index(leaves, pane)->0);
        let t2 = post.ws_seq()[wi].tabs@[ti];
        &&& post.pane_map() == pre.pane_map().remove(pane)
        &&& post.feed().entry_seq() == pre.feed().entry_seq().filter(|n: Notification| n.pane != pane)
        &&& post.feed().next_id_value() == pre.feed().next_id_value()
        &&& post.same_active(pre)
        &&& post.next_id() == pre.next_id()
        &&& same_except(pre.ws_seq(), post.ws_seq(), wi)
        &&& ws_same_fields(w, post.ws_seq()[wi])
        &&& if rest.len() == 0 {
            let tabs = w.tabs@.remove(ti);
            &&& post.ws_seq()[wi].tabs@ == tabs
            &&& post.ws_seq()[wi].active_tab == (if w.active_tab == Some(t.id) {
                if tabs.len() == 0 {
                    None
                } else {
                    Some(tabs[if ti < tabs.len() { ti } else { tabs.len() - 1 }].id)
                }
            } else {
                w.active_tab
            })
            &&& post.closed_seq() == pre.closed_seq().push(ClosedTab { workspace: w.id, title: t.title })
        } else {
            &&& post.ws_seq()[wi].active_tab == w.active_tab
            &&& same_except(w.tabs@, post.ws_seq()[wi].tabs@, ti)
            &&& t2.id == t.id && t2.title == t.title
            &&& t2.tree.root_node() == crate::split::spec_close(t.tree.root_node()->0, pane)->0
            &&& t2.tree.pane_seq() == rest
            &&& t2.focused == (if t.focused == Some(pane) { Some(rest[0]) } else { t.focused })
            &&& t2.zoomed == (if t.zoomed == Some(pane) { None } else { t.zoomed })
            &&& post.closed_seq() == pre.closed_seq()
        }
    }))
}

/// What [`AppState::close_tab`] does: how the state after the call relates
/// to the state before it, and what the call returns.
pub open spec fn close_tab_effect(pre: AppState, post: AppState, ws: WorkspaceId, tab: TabId, b: bool) -> bool {
    &&& (post.panes_wf())
    &&& (b == (match ws_pos(pre.ws_seq(), ws) {
        Some(wi) => tab_pos(pre.ws_seq()[wi].tabs@, tab) is Some,
        None => false,
    }))
    &&& (!b ==> unchanged(pre, post))
    &&& (b ==> ({
        let wi = ws_pos(pre.ws_seq(), ws)->0;
        tab_closed(pre, post, wi, tab_pos(pre.ws_seq()[wi].tabs@, tab)->0)
    }))
    &&& (pre.feed().wf() ==> post.feed().wf())
}

/// What [`AppState::split_pane`] does: how the state after the call relates
/// to the state before it, and what the call returns.
pub open spec fn split_pane_effect(pre: AppState, post: AppState, target: PaneId, orientation: Orientation, r: Option<PaneId>) -> bool {
    &&& (split_effect(pre, post, target, orientation, r))
    &&& (r matches Some(n) ==> terminal_in(post.pane_map()[n], n, cwd_of(pre.pane_map(), target)))
    &&& (post.panes_wf())
}

/// What [`AppState::split_focused`] does: how the state after the call relates
/// to the state before it, and what the call returns.
pub open spec fn split_focused_effect(pre: AppState, post: AppState, orientation: Orientation, r: Option<PaneId>) -> bool {
    &&& (match pre.focused_of() {
        Some(f) => split_effect(pre, post, f, orientation, r)
            && (r matches Some(n) ==> terminal_in(post.pane_map()[n], n, cwd_of(pre.pane_map(), f))),
        None => r is None && unchanged(pre, post),
    })
    &&& (post.panes_wf())
}

/// What [`AppState::split_focused_browser`] does: how the state after the call relates
/// to the state before it, and what the call returns.
pub open spec fn split_focused_browser_effect(pre: AppState, post: AppState, url: Seq<char>, orientation: Orientation, r: Option<PaneId>) -> bool {
    &&& (match pre.focused_of() {
        Some(f) => split_effect(pre, post, f, orientation, r)
            && (r matches Some(n) ==> {
                let p = post.pane_map()[n];
                &&& p.id == n
                &&& p.title@ == seq!['b', 'r', 'o', 'w', 's', 'e', 'r']
                &&& p.cwd is None
                &&& p.kind matches PaneKind::Browser { url: u } && u@ == url
                &&& p.ring == RingState::Idle
            }),
        None => r is None && unchanged(pre, post),
    })
    &&& (post.panes_wf())
}

/// What [`AppState::set_browser_url`] does: how the state after the call relates
/// to the state before it, and what the call returns.
pub open spec fn set_browser_url_effect(pre: AppState, post: AppState, pane: PaneId, url: Seq<char>, b: bool) -> bool {
    &&& (b == (pre.pane_map().contains_key(pane) && pre.pane_map()[pane].kind is Browser))
    &&& (b ==> post.pane_map() == pre.pane_map().insert(
        pane,
        Pane { kind: post.pane_map()[pane].kind, ..pre.pane_map()[pane] },
    ) && (post.pane_map()[pane].kind matches PaneKind::Browser { url: u } && u@ == url))
    &&& (!b ==> post.pane_map() == pre.pane_map())
    &&& (post.panes_wf())
    &&& (post.same_ws(pre))
    &&& (post.same_active(pre))
    &&& (post.same_feed(pre))
    &&& (post.same_history(pre))
}

/// What [`AppState::notify`] does: how the state after the call relates
/// to the state before it, and what the call returns.
pub open spec fn notify_effect(pre: AppState, post: AppState, pane: PaneId, title: Seq<char>, body: Seq<char>, now_ms: u64, r: Option<u64>) -> bool {
    &&& (post.panes_wf())
    &&& (pre.feed().wf() ==> post.feed().wf())
    &&& (post.same_ws(pre))
    &&& (post.same_active(pre))
    &&& (post.same_history(pre))
    &&& (match locate(pre.ws_seq(), pane) {
        None => r is None && unchanged(pre, post),
        Some((wi, ti)) => {
            let looking = is_looking_at(pre, pane, wi, ti);
            let w = pre.ws_seq()[wi];
            let e = post.feed().entry_seq();
            let n = e.last();
            &&& r == Some(pre.feed().next_id_value())
            &&& post.feed().next_id_value() == pre.feed().next_id_value() + 1
            &&& post.pane_map() == with_ring(
                pre.pane_map(),
                pane,
                if looking { RingState::Idle } else { RingState::Attention },
            )
            &&& e.len() == pre.feed().entry_seq().len() + 1
            &&& e.drop_last() == (if looking {
                mark_where(pre.feed().entry_seq(), of_pane(pane))
            } else {
                pre.feed().entry_seq()
            })
            &&& n.id == pre.feed().next_id_value()
            &&& n.workspace == w.id && n.tab == w.tabs@[ti].id && n.pane == pane
            &&& n.title@ == title && n.body@ == body && n.created_at_ms == now_ms
            &&& n.read == looking
        },
    })
}

/// What [`AppState::rename_tab`] does: how the state after the call relates
/// to the state before it, and what the call returns.
pub open spec fn rename_tab_effect(pre: AppState, post: AppState, tab: TabId, title: Seq<char>, b: bool) -> bool {
    &&& (b == ws_with_tab(pre.ws_seq(), tab) is Some)
    &&& (post.same_active(pre))
    &&& (post.same_panes(pre))
    &&& (post.same_feed(pre))
    &&& (post.same_history(pre))
    &&& (!b ==> post.same_ws(pre))
    &&& (b ==> ({
        let wi = ws_with_tab(pre.ws_seq(), tab)->0;
        let ti = tab_pos(pre.ws_seq()[wi].tabs@, tab)->0;
        let t = pre.ws_seq()[wi].tabs@[ti];
        let t2 = post.ws_seq()[wi].tabs@[ti];
        &&& same_except(pre.ws_seq(), post.ws_seq(), wi)
        &&& ws_same_fields(pre.ws_seq()[wi], post.ws_seq()[wi])
        &&& post.ws_seq()[wi].active_tab == pre.ws_seq()[wi].active_tab
        &&& same_except(pre.ws_seq()[wi].tabs@, post.ws_seq()[wi].tabs@, ti)
        &&& t2.id == t.id && t2.tree == t.tree && t2.focused == t.focused && t2.zoomed == t.zoomed
        &&& t2.title@ == title
    }))
}

/// What [`AppState::rename_workspace`] does: how the state after the call relates
/// to the state before it, and what the call returns.
pub open spec fn rename_workspace_effect(pre: AppState, post: AppState, ws: WorkspaceId, title: Seq<char>, b: bool) -> bool {
    &&& (b == ws_pos(pre.ws_seq(), ws) is Some)
    &&& (post.same_active(pre))
    &&& (post.same_panes(pre))
    &&& (post.same_feed(pre))
    &&& (post.same_history(pre))
    &&& (!b ==> post.same_ws(pre))
    &&& (b ==> ({
        let wi = ws_pos(pre.ws_seq(), ws)->0;
        let w = pre.ws_seq()[wi];
        let w2 = post.ws_seq()[wi];
        &&& same_except(pre.ws_seq(), post.ws_seq(), wi)
        &&& w2.id == w.id && w2.cwd == w.cwd && w2.tabs == w.tabs && w2.active_tab == w.active_tab
        &&& w2.title@ == title
    }))
}

/// What [`AppState::reorder_tab`] does: how the state after the call relates
/// to the state before it, and what the call returns.
pub open spec fn reorder_tab_effect(pre: AppState, post: AppState, ws: WorkspaceId, tab: TabId, to: usize, b: bool) -> bool {
    &&& (b == (match ws_pos(pre.ws_seq(), ws) {
        Some(wi) => tab_pos(pre.ws_seq()[wi].tabs@, tab) is Some,
        None => false,
    }))
    &&& (!b ==> post.same_ws(pre))
    &&& (b ==> ({
        let wi = ws_pos(pre.ws_seq(), ws)->0;
        let w = pre.ws_seq()[wi];
        &&& same_except(pre.ws_seq(), post.ws_seq(), wi)
        &&& ws_same_fields(w, post.ws_seq()[wi])
        &&& post.ws_seq()[wi].active_tab == w.active_tab
        &&& post.ws_seq()[wi].tabs@ == moved(
            w.tabs@,
            tab_pos(w.tabs@, tab)->0,
            clamp_index(to as int, w.tabs@.len() as int),
        )
    }))
    &&& (post.same_active(pre))
    &&& (post.same_panes(pre))
    &&& (post.same_feed(pre))
    &&& (post.same_history(pre))
}

/// What [`AppState::reorder_workspace`] does: how the state after the call relates
/// to the state before it, and what the call returns.
pub open spec fn reorder_workspace_effect(pre: AppState, post: AppState, ws: WorkspaceId, to: usize, b: bool) -> bool {
    &&& (b == ws_pos(pre.ws_seq(), ws) is Some)
    &&& (!b ==> post.same_ws(pre))
    &&& (b ==> post.ws_seq() == moved(
        pre.ws_seq(),
        ws_pos(pre.ws_seq(), ws)->0,
        clamp_index(to as int, pre.ws_seq().len() as int),
    ))
    &&& (post.same_active(pre))
    &&& (post.same_panes(pre))
    &&& (post.same_feed(pre))
    &&& (post.same_history(pre))
}

/// What [`AppState::close_workspace`] does: how the state after the call relates
/// to the state before it, and what the call returns.
pub open spec fn close_workspace_effect(pre: AppState, post: AppState, ws: WorkspaceId, b: bool) -> bool {
    &&& (post.panes_wf())
    &&& (pre.feed().wf() ==> post.feed().wf())
    &&& (b == ws_pos(pre.ws_seq(), ws) is Some)
    &&& (!b ==> unchanged(pre, post))
    &&& (b ==> ({
        let wi = ws_pos(pre.ws_seq(), ws)->0;
        let rest = pre.ws_seq().remove(wi);
        let leaves = tabs_leaves(pre.ws_seq()[wi].tabs@);
        &&& post.ws_seq() == rest
        &&& post.pane_map() == drop_panes(pre.pane_map(), leaves)
        &&& post.feed().entry_seq() == pre.feed().entry_seq().filter(not_in(leaves))
        &&& post.feed().next_id_value() == pre.feed().next_id_value()
        &&& post.active_ws() == (if pre.active_ws() == Some(ws) {
            if rest.len() == 0 {
                None
            } else {
                Some(rest[clamp_index(wi, rest.len() as int)].id)
            }
        } else {
            pre.active_ws()
        })
        &&& post.same_history(pre)
    }))
}

/// What [`AppState::equalize_active`] does: how the state after the call relates
/// to the state before it, and what the call returns.
pub open spec fn equalize_active_effect(pre: AppState, post: AppState, b: bool) -> bool {
    &&& (b == pre.active_positions() is Some)
    &&& (post.same_active(pre))
    &&& (post.same_panes(pre))
    &&& (post.same_feed(pre))
    &&& (post.same_history(pre))
    &&& (!b ==> post.same_ws(pre))
    &&& (b ==> ({
        let (wi, ti) = pre.active_positions()->0;
        let t = pre.ws_seq()[wi].tabs@[ti];
        &&& tree_replaced(pre.ws_seq(), post.ws_seq(), wi, ti)
        &&& post.ws_seq()[wi].tabs@[ti].tree.root_node() == (match t.tree.root_node() {
            Some(n) => Some(crate::split::spec_equalize(n)),
            None => None,
        })
    }))
}

/// What [`AppState::toggle_zoom`] does: how the state after the call relates
/// to the state before it, and what the call returns.
pub open spec fn toggle_zoom_effect(pre: AppState, post: AppState, b: bool) -> bool {
    &&& (b == pre.active_positions() is Some)
    &&& (post.same_active(pre))
    &&& (post.same_panes(pre))
    &&& (post.same_feed(pre))
    &&& (post.same_history(pre))
    &&& (!b ==> post.same_ws(pre))
    &&& (b ==> ({
        let (wi, ti) = pre.active_positions()->0;
        let t = pre.ws_seq()[wi].tabs@[ti];
        tab_replaced(pre.ws_seq(), post.ws_seq(), wi, ti, Tab {
            zoomed: if t.zoomed is Some { None } else { t.focused },
            ..t
        })
    }))
}

/// What [`AppState::mark_notification_read`] does: how the state after the call relates
/// to the state before it, and what the call returns.
pub open spec fn mark_notification_read_effect(pre: AppState, post: AppState, id: u64, b: bool) -> bool {
    &&& (b == exists|i: int| 0 <= i < pre.feed().entry_seq().len() && (#[trigger] pre.feed().entry_seq()[i]).id == id)
    &&& (post.feed().entry_seq() == mark_where(pre.feed().entry_seq(), |n: Notification| n.id == id))
    &&& (post.feed().next_id_value() == pre.feed().next_id_value())
    &&& (post.same_ws(pre))
    &&& (post.same_active(pre))
    &&& (post.same_panes(pre))
    &&& (post.same_history(pre))
}

/// What [`AppState::dismiss_notification`] does: how the state after the call relates
/// to the state before it, and what the call returns.
pub open spec fn dismiss_notification_effect(pre: AppState, post: AppState, id: u64, b: bool) -> bool {
    &&& (b == exists|i: int| 0 <= i < pre.feed().entry_seq().len() && (#[trigger] pre.feed().entry_seq()[i]).id == id)
    &&& (post.feed().entry_seq() == pre.feed().entry_seq().filter(|n: Notification| n.id != id))
    &&& (post.feed().next_id_value() == pre.feed().next_id_value())
    &&& (post.same_ws(pre))
    &&& (post.same_active(pre))
    &&& (post.same_panes(pre))
    &&& (post.same_history(pre))
}

/// What [`AppState::reopen_closed_tab`] does: how the state after the call relates
/// to the state before it, and what the call returns.
pub open spec fn reopen_closed_tab_effect(pre: AppState, post: AppState, r: Option<TabId>) -> bool {
    &&& (post.panes_wf())
    &&& (pre.closed_seq().len() == 0 ==> r is None && unchanged(pre, post))
    &&& (pre.closed_seq().len() > 0 ==> ({
        let c = pre.closed_seq().last();
        let target = if ws_pos(pre.ws_seq(), c.workspace) is Some {
            Some(c.workspace)
        } else {
            pre.active_ws()
        };
        &&& post.closed_seq() == pre.closed_seq().drop_last()
        &&& match target {
            Some(ws) => add_tab_effect(pre, post, ws, r),
            None => r is None && post.same_ws(pre) && post.same_active(pre)
                && post.same_panes(pre) && post.same_feed(pre)
                && post.next_id() == pre.next_id(),
        }
    }))
}

/// A state is unchanged from itself.
pub proof fn lemma_unchanged_refl(s: AppState)
    ensures
        unchanged(s, s),
{
}

/// States with the same panes agree on the pane map and its well-formedness.
pub proof fn lemma_same_panes(a: AppState, b: AppState)
    requires
        a.same_panes(b),
    ensures
        a.pane_map() == b.pane_map(),
        a.panes_wf() == b.panes_wf(),
{
}

/// The empty topology [`AppState::new`] makes.
pub open spec fn is_initial(s: AppState) -> bool {
    &&& s.ws_seq().len() == 0
    &&& s.active_ws() is None
    &&& s.pane_map() == Map::<PaneId, Pane>::empty()
    &&& s.panes_wf()
    &&& s.feed().entry_seq().len() == 0
    &&& s.feed().next_id_value() == 0
    &&& s.closed_seq().len() == 0
    &&& s.next_id() == 1
}

/// What the closed `same_*` relations say of the observable parts.
pub proof fn lemma_same_parts(a: AppState, b: AppState)
    ensures
        b.same_ws(a) ==> b.ws_seq() == a.ws_seq(),
        b.same_active(a) ==> b.active_ws() == a.active_ws(),
        b.same_panes(a) ==> b.pane_map() == a.pane_map() && b.panes_wf() == a.panes_wf(),
        b.same_feed(a) ==> b.feed() == a.feed(),
        b.same_history(a) ==> b.closed_seq() == a.closed_seq() && b.next_id() == a.next_id(),
{
}


proof fn lemma_ws_pos_same_ids(a: Seq<Workspace>, b: Seq<Workspace>, id: WorkspaceId)
    requires
        a.len() == b.len(),
        forall|j: int| 0 <= j < a.len() ==> (#[trigger] a[j]).id == b[j].id,
    ensures
        ws_pos(a, id) == ws_pos(b, id),
{
    let f = |w: Workspace| w.id == id;
    lemma_first_match(a, f);
    match ws_pos(a, id) {
        Some(i) => {
            assert forall|j: int| 0 <= j < i implies !f(#[trigger] b[j]) by {
                assert(!f(a[j]));
            }
            assert(f(a[i]));
            lemma_first_match_at(b, f, i);
        },
        None => {
            assert forall|j: int| 0 <= j < b.len() implies !f(#[trigger] b[j]) by {
                assert(!f(a[j]));
            }
            lemma_first_match_at(b, f, b.len() as int);
        },
    }
}

/// Closing a tab and then reopening the most recently closed tab gives the
/// workspace back as many tabs as it had, with the reopened tab active, and
/// leaves the closed-tab history as it was before the close; no other
/// workspace changes.
pub proof fn law_close_then_reopen_restores_tab(
    pre: AppState,
    mid: AppState,
    post: AppState,
    ws: WorkspaceId,
    tab: TabId,
    r: Option<TabId>,
)
    requires
        close_tab_effect(pre, mid, ws, tab, true),
        reopen_closed_tab_effect(mid, post, r),
    ensures
        r is Some,
        post.closed_seq() == pre.closed_seq(),
        ws_pos(post.ws_seq(), ws) == ws_pos(pre.ws_seq(), ws),
        ws_pos(pre.ws_seq(), ws) matches Some(wi) && {
            &&& post.ws_seq()[wi].tabs@.len() == pre.ws_seq()[wi].tabs@.len()
            &&& post.ws_seq()[wi].active_tab == r
            &&& same_except(pre.ws_seq(), post.ws_seq(), wi)
        },
{
    let wi = ws_pos(pre.ws_seq(), ws)->0;
    lemma_first_match(pre.ws_seq(), |w: Workspace| w.id == ws);
    let ti = tab_pos(pre.ws_seq()[wi].tabs@, tab)->0;
    lemma_first_match(pre.ws_seq()[wi].tabs@, |t: Tab| t.id == tab);
    assert(tab_closed(pre, mid, wi, ti));
    assert(mid.ws_seq()[wi].tabs@.len() + 1 == pre.ws_seq()[wi].tabs@.len());
    assert(mid.ws_seq()[wi].id == ws);
    assert forall|j: int| 0 <= j < pre.ws_seq().len() implies (#[trigger] pre.ws_seq()[j]).id == mid.ws_seq()[j].id by {
        if j != wi {
            assert(mid.ws_seq()[j] == pre.ws_seq()[j]);
        }
    }
    lemma_ws_pos_same_ids(pre.ws_seq(), mid.ws_seq(), ws);
    let c = mid.closed_seq().last();
    assert(c.workspace == ws);
    assert(add_tab_effect(mid, post, ws, r));
    assert(mid.closed_seq().drop_last() =~= pre.closed_seq());
    assert forall|j: int| 0 <= j < pre.ws_seq().len() implies (#[trigger] pre.ws_seq()[j]).id == post.ws_seq()[j].id by {
        if j != wi {
            assert(mid.ws_seq()[j] == pre.ws_seq()[j]);
            assert(post.ws_seq()[j] == mid.ws_seq()[j]);
        }
    }
    lemma_ws_pos_same_ids(pre.ws_seq(), post.ws_seq(), ws);
    assert forall|j: int| 0 <= j < pre.ws_seq().len() && j != wi implies #[trigger] post.ws_seq()[j] == pre.ws_seq()[j] by {
        assert(mid.ws_seq()[j] == pre.ws_seq()[j]);
        assert(post.ws_seq()[j] == mid.ws_seq()[j]);
    }
}

/// Going to the previous tab undoes going to the next one: when the active
/// workspace's active tab is one of its tabs (and tab ids are distinct), a
/// step forward followed by a step back gives the workspaces back unchanged,
/// and both steps succeed or fail together.
pub proof fn law_previous_tab_undoes_next_tab(pre: AppState, mid: AppState, post: AppState, b1: bool, b2: bool)
    requires
        focus_adjacent_tab_effect(pre, mid, true, b1),
        focus_adjacent_tab_effect(mid, post, false, b2),
        ids_distinct(pre.ws_seq()),
        pre.active_ws() matches Some(a) && ws_pos(pre.ws_seq(), a) matches Some(wi)
            && active_tab_pos(pre.ws_seq()[wi]) is Some,
    ensures
        b1 == b2,
        post.ws_seq() == pre.ws_seq(),
        post.active_ws() == pre.active_ws(),
{
    let ws = pre.ws_seq();
    let a = pre.active_ws()->0;
    lemma_first_match(ws, |w: Workspace| w.id == a);
    let wi = ws_pos(ws, a)->0;
    let w = ws[wi];
    let n = w.tabs@.len() as int;
    lemma_first_match(w.tabs@, |t: Tab| t.id == w.active_tab->0);
    let cur = active_tab_pos(w)->0;
    assert(mid.active_ws() == Some(a)) by {
        reveal_with_fuel(first_match, 1);
    }
    if b1 {
        let next = adjacent_index(cur, n, true);
        assert(next == (if cur + 1 == n { 0 } else { cur + 1 })) by {
            if cur + 1 == n {
                vstd::arithmetic::div_mod::lemma_mod_self_0(n);
            } else {
                vstd::arithmetic::div_mod::lemma_small_mod((cur + 1) as nat, n as nat);
            }
        }
        let wm = Workspace { active_tab: Some(w.tabs@[next].id), ..w };
        let ms = mid.ws_seq();
        assert(ms == ws.update(wi, wm));
        assert forall|j: int| 0 <= j < wi implies !((|x: Workspace| x.id == a)(#[trigger] ms[j])) by {
            assert(ms[j] == ws[j]);
        }
        lemma_first_match_at(ms, |x: Workspace| x.id == a, wi);
        assert forall|j: int| 0 <= j < next implies !((|x: Tab| x.id == w.tabs@[next].id)(#[trigger] w.tabs@[j])) by {
            assert(w.tabs@[j].id != w.tabs@[next].id);
        }
        lemma_first_match_at(w.tabs@, |x: Tab| x.id == w.tabs@[next].id, next);
        assert(active_tab_pos(wm) == Some(next));
        let back = adjacent_index(next, n, false);
        assert(back == cur) by {
            if cur + 1 == n {
                vstd::arithmetic::div_mod::lemma_small_mod((n - 1) as nat, n as nat);
            } else {
                vstd::arithmetic::div_mod::lemma_mod_add_multiples_vanish(cur, n);
                vstd::arithmetic::div_mod::lemma_small_mod(cur as nat, n as nat);
            }
        }
        assert(w.tabs@[cur].id == w.active_tab->0);
        assert(Workspace { active_tab: Some(w.tabs@[cur].id), ..wm } == w);
        assert(post.ws_seq() =~= ws);
    } else {
        assert(mid.ws_seq() == ws);
    }
}


/// The next tab is the one right after the active tab, or the first tab
/// when the active tab is the last; the previous tab is the one right
/// before it, or the last tab when the active tab is the first.
pub proof fn law_adjacent_tab_positions(pre: AppState, post: AppState, forward: bool, b: bool)
    requires
        focus_adjacent_tab_effect(pre, post, forward, b),
        b,
        pre.active_ws() matches Some(a) && ws_pos(pre.ws_seq(), a) matches Some(wi)
            && active_tab_pos(pre.ws_seq()[wi]) is Some,
    ensures
        ({
            let wi = ws_pos(pre.ws_seq(), pre.active_ws()->0)->0;
            let w = pre.ws_seq()[wi];
            let n = w.tabs@.len() as int;
            let cur = active_tab_pos(w)->0;
            let target = if forward {
                if cur == n - 1 { 0 } else { cur + 1 }
            } else {
                if cur == 0 { n - 1 } else { cur - 1 }
            };
            &&& post.ws_seq()[wi].active_tab == Some(w.tabs@[target].id)
            &&& post.ws_seq()[wi].tabs@ == w.tabs@
            &&& forall|j: int| 0 <= j < pre.ws_seq().len() && j != wi ==> #[trigger] post.ws_seq()[j] == pre.ws_seq()[j]
        }),
{
    let ws = pre.ws_seq();
    let a = pre.active_ws()->0;
    lemma_first_match(ws, |w: Workspace| w.id == a);
    let wi = ws_pos(ws, a)->0;
    let w = ws[wi];
    let n = w.tabs@.len() as int;
    lemma_first_match(w.tabs@, |t: Tab| t.id == w.active_tab->0);
    let cur = active_tab_pos(w)->0;
    if forward {
        if cur + 1 == n {
            vstd::arithmetic::div_mod::lemma_mod_self_0(n);
        } else {
            vstd::arithmetic::div_mod::lemma_small_mod((cur + 1) as nat, n as nat);
        }
    } else {
        if cur == 0 {
            vstd::arithmetic::div_mod::lemma_small_mod((n - 1) as nat, n as nat);
        } else {
            vstd::arithmetic::div_mod::lemma_mod_add_multiples_vanish(cur - 1, n);
            vstd::arithmetic::div_mod::lemma_small_mod((cur - 1) as nat, n as nat);
        }
    }
}

} // verus!
