use cmux::ids::{TabId, WorkspaceId};
use cmux::notification::RingState;
use cmux::protocol::{summarize, SplitDir};
use cmux::split::{FocusDir, Orientation, Rect};
use cmux::ids::IdGen;
use cmux::notification::NotificationFeed;
use cmux::workspace::{AppState, ClosedTab};

fn seeded() -> (AppState, WorkspaceId) {
    let mut s = AppState::new();
    let ws = s.new_workspace("proj");
    (s, ws)
}

#[test]
fn new_workspace_has_one_tab_one_pane_and_is_active() {
    let (s, ws) = seeded();
    assert_eq!(s.active_workspace, Some(ws));
    let w = s.workspace(ws).unwrap();
    assert_eq!(w.tabs.len(), 1);
    assert_eq!(w.tabs[0].panes().len(), 1);
    assert!(s.focused_pane().is_some());
}

#[test]
fn add_tab_focuses_new_tab() {
    let (mut s, ws) = seeded();
    let t2 = s.add_tab(ws).unwrap();
    assert_eq!(s.workspace(ws).unwrap().active_tab, Some(t2));
    assert_eq!(s.workspace(ws).unwrap().tabs.len(), 2);
}

#[test]
fn split_creates_and_focuses_new_pane() {
    let (mut s, _ws) = seeded();
    let before = s.focused_pane().unwrap();
    let new = s.split_focused(Orientation::Horizontal).unwrap();
    assert_ne!(before, new);
    assert_eq!(s.focused_pane(), Some(new));
    assert!(s.pane(new).is_some());
}

#[test]
fn close_pane_collapses_and_refocuses() {
    let (mut s, _ws) = seeded();
    let first = s.focused_pane().unwrap();
    let second = s.split_focused(Orientation::Horizontal).unwrap();
    assert!(s.close_pane(second));
    assert_eq!(s.focused_pane(), Some(first));
    assert!(s.pane(second).is_none());
}

#[test]
fn closing_last_pane_in_tab_closes_the_tab() {
    let (mut s, ws) = seeded();
    let t2 = s.add_tab(ws).unwrap();
    let pane = s.workspace(ws).unwrap().active_tab().unwrap().focused.unwrap();
    assert_eq!(s.workspace(ws).unwrap().tabs.len(), 2);
    assert!(s.close_pane(pane));
    assert_eq!(s.workspace(ws).unwrap().tabs.len(), 1);
    assert_ne!(s.workspace(ws).unwrap().active_tab, Some(t2));
    assert_eq!(s.closed_tab_count(), 1);
}

#[test]
fn reopen_closed_tab_restores_a_tab() {
    let (mut s, ws) = seeded();
    let t2 = s.add_tab(ws).unwrap();
    s.close_tab(ws, t2);
    assert_eq!(s.workspace(ws).unwrap().tabs.len(), 1);
    let reopened = s.reopen_closed_tab().unwrap();
    assert_eq!(s.workspace(ws).unwrap().tabs.len(), 2);
    assert_eq!(s.workspace(ws).unwrap().active_tab, Some(reopened));
    assert_eq!(s.closed_tab_count(), 0);
}

#[test]
fn notify_sets_ring_and_feed_when_unfocused() {
    let (mut s, ws) = seeded();
    let bg_pane = s.workspace(ws).unwrap().tabs[0].focused.unwrap();
    s.add_tab(ws);
    let id = s.notify(bg_pane, "Agent", "needs input", 123).unwrap();
    assert_eq!(id, 0);
    assert_eq!(s.pane(bg_pane).unwrap().ring, RingState::Attention);
    assert_eq!(s.notifications.unread_count(), 1);
    let (_w, t) = s.locate_pane(bg_pane).unwrap();
    assert!(s.tab_has_attention(ws, t));
}

#[test]
fn notify_on_focused_pane_does_not_nag() {
    let (mut s, _ws) = seeded();
    let focused = s.focused_pane().unwrap();
    s.notify(focused, "Agent", "done", 1);
    assert_eq!(s.pane(focused).unwrap().ring, RingState::Idle);
    assert_eq!(s.notifications.unread_count(), 0);
}

#[test]
fn focusing_pane_clears_ring_and_marks_read() {
    let (mut s, ws) = seeded();
    let bg_pane = s.workspace(ws).unwrap().tabs[0].focused.unwrap();
    s.add_tab(ws);
    s.notify(bg_pane, "Agent", "needs input", 1);
    assert_eq!(s.notifications.unread_count(), 1);
    assert!(s.focus_pane(bg_pane));
    assert_eq!(s.pane(bg_pane).unwrap().ring, RingState::Idle);
    assert_eq!(s.notifications.unread_count(), 0);
}

#[test]
fn set_active_divider_resizes_split() {
    let (mut s, _ws) = seeded();
    s.split_focused(Orientation::Horizontal);
    assert!(s.set_active_divider(0, 3000));
    let t = s.active_workspace().unwrap().active_tab().unwrap();
    let d = t.tree.dividers(Rect::new(0, 0, 1, 1));
    assert_eq!(d[0].ratio, 3000);
    assert!(!s.set_active_divider(5, 5000));
}

#[test]
fn split_into_browser_pane_and_navigate() {
    let (mut s, _ws) = seeded();
    let b = s.split_focused_browser("https://example.com", Orientation::Horizontal).unwrap();
    assert!(s.pane(b).unwrap().is_browser());
    assert_eq!(s.pane(b).unwrap().browser_url(), Some("https://example.com"));
    assert_eq!(s.focused_pane(), Some(b));
    assert!(s.set_browser_url(b, "https://docs.rs"));
    assert_eq!(s.pane(b).unwrap().browser_url(), Some("https://docs.rs"));
}

#[test]
fn set_browser_url_rejects_terminal_pane() {
    let (mut s, _ws) = seeded();
    let term = s.focused_pane().unwrap();
    assert!(!s.set_browser_url(term, "https://x"));
}

#[test]
fn rename_tab_and_workspace() {
    let (mut s, ws) = seeded();
    let t = s.workspace(ws).unwrap().tabs[0].id;
    assert!(s.rename_tab(t, "build"));
    assert_eq!(s.workspace(ws).unwrap().tabs[0].title, "build");
    assert!(s.rename_workspace(ws, "myproj"));
    assert_eq!(s.workspace(ws).unwrap().title, "myproj");
    assert!(!s.rename_tab(TabId(999), "x"));
}

#[test]
fn reorder_tab_moves_it() {
    let (mut s, ws) = seeded();
    let t1 = s.workspace(ws).unwrap().tabs[0].id;
    let t2 = s.add_tab(ws).unwrap();
    assert!(s.reorder_tab(ws, t2, 0));
    let order: Vec<_> = s.workspace(ws).unwrap().tabs.iter().map(|t| t.id).collect();
    assert_eq!(order, vec![t2, t1]);
}

#[test]
fn focus_adjacent_tab_wraps() {
    let (mut s, ws) = seeded();
    let t1 = s.workspace(ws).unwrap().tabs[0].id;
    let t2 = s.add_tab(ws).unwrap();
    assert!(s.focus_adjacent_tab(true));
    assert_eq!(s.workspace(ws).unwrap().active_tab, Some(t1));
    assert!(s.focus_adjacent_tab(false));
    assert_eq!(s.workspace(ws).unwrap().active_tab, Some(t2));
}

#[test]
fn focus_adjacent_tab_needs_two_tabs() {
    let (mut s, _ws) = seeded();
    assert!(!s.focus_adjacent_tab(true));
}

#[test]
fn focus_workspace_index_selects_by_position() {
    let (mut s, ws1) = seeded();
    let ws2 = s.new_workspace("second");
    assert!(s.focus_workspace_index(0));
    assert_eq!(s.active_workspace, Some(ws1));
    assert!(s.focus_workspace_index(1));
    assert_eq!(s.active_workspace, Some(ws2));
    assert!(!s.focus_workspace_index(9));
}

#[test]
fn equalize_active_resets_dividers() {
    let (mut s, _ws) = seeded();
    s.split_focused(Orientation::Horizontal);
    assert!(s.set_active_divider(0, 2000));
    assert!(s.equalize_active());
    let t = s.active_workspace().unwrap().active_tab().unwrap();
    let d = t.tree.dividers(Rect::new(0, 0, 1, 1));
    assert_eq!(d[0].ratio, 5000);
}

#[test]
fn toggle_zoom_tracks_focused_pane() {
    let (mut s, _ws) = seeded();
    let a = s.focused_pane().unwrap();
    let b = s.split_focused(Orientation::Horizontal).unwrap();
    assert_eq!(s.zoomed_pane(), None);
    assert!(s.toggle_zoom());
    assert_eq!(s.zoomed_pane(), Some(b));
    assert!(s.toggle_zoom());
    assert_eq!(s.zoomed_pane(), None);
    s.focus_pane(a);
    s.toggle_zoom();
    assert_eq!(s.zoomed_pane(), Some(a));
    s.close_pane(a);
    assert_eq!(s.zoomed_pane(), None);
}

#[test]
fn close_workspace_prunes_and_repoints_active() {
    let (mut s, ws1) = seeded();
    let p1 = s.focused_pane().unwrap();
    let ws2 = s.new_workspace("second");
    s.focus_workspace(ws1);
    assert!(s.close_workspace(ws1));
    assert!(s.workspace(ws1).is_none());
    assert!(s.pane(p1).is_none());
    assert_eq!(s.active_workspace, Some(ws2));
    assert!(!s.close_workspace(WorkspaceId(999)));
}

#[test]
fn close_other_tabs_keeps_active() {
    let (mut s, ws) = seeded();
    s.add_tab(ws);
    let keep = s.add_tab(ws).unwrap();
    assert_eq!(s.workspace(ws).unwrap().tabs.len(), 3);
    assert_eq!(s.close_other_tabs(), 2);
    assert_eq!(s.workspace(ws).unwrap().tabs.len(), 1);
    assert_eq!(s.workspace(ws).unwrap().active_tab, Some(keep));
}

#[test]
fn cwd_inherited_on_split_and_tab() {
    let (mut s, ws) = seeded();
    let p = s.focused_pane().unwrap();
    assert!(s.panes.set_cwd(p, Some("/work".into())));
    let child = s.split_focused(Orientation::Horizontal).unwrap();
    assert_eq!(s.pane(child).unwrap().cwd.as_deref(), Some("/work"));
    let t = s.add_tab(ws).unwrap();
    let new_pane = s.workspace(ws).unwrap().tabs.iter().find(|x| x.id == t).unwrap().focused.unwrap();
    assert_eq!(s.pane(new_pane).unwrap().cwd.as_deref(), Some("/work"));
}

#[test]
fn move_tab_to_new_workspace_detaches_it() {
    let (mut s, ws) = seeded();
    let t1 = s.workspace(ws).unwrap().tabs[0].id;
    let t2 = s.add_tab(ws).unwrap();
    let new_ws = s.move_tab_to_new_workspace(t2).unwrap();
    assert_ne!(new_ws, ws);
    assert_eq!(s.workspace(ws).unwrap().tabs.len(), 1);
    assert_eq!(s.workspace(ws).unwrap().tabs[0].id, t1);
    assert_eq!(s.workspace(new_ws).unwrap().tabs.len(), 1);
    assert_eq!(s.workspace(new_ws).unwrap().active_tab, Some(t2));
    assert_eq!(s.active_workspace, Some(new_ws));
    assert!(s.move_tab_to_new_workspace(t1).is_none());
}

#[test]
fn move_tab_to_existing_workspace() {
    let (mut s, ws1) = seeded();
    let extra = s.add_tab(ws1).unwrap();
    let ws2 = s.new_workspace("dest");
    assert!(s.move_tab_to_workspace(extra, ws2));
    assert!(s.workspace(ws1).unwrap().tabs.iter().all(|t| t.id != extra));
    assert!(s.workspace(ws2).unwrap().tabs.iter().any(|t| t.id == extra));
    assert!(!s.move_tab_to_workspace(extra, WorkspaceId(999)));
}

#[test]
fn swap_focused_exchanges_panes() {
    let (mut s, _ws) = seeded();
    let left = s.focused_pane().unwrap();
    let right = s.split_focused(Orientation::Horizontal).unwrap();
    assert!(s.swap_focused(FocusDir::Left));
    let tab = s.active_workspace().unwrap().active_tab().unwrap();
    assert_eq!(tab.tree.leaves(), vec![right, left]);
}

#[test]
fn focus_pane_index_selects_nth() {
    let (mut s, _ws) = seeded();
    let first = s.focused_pane().unwrap();
    let second = s.split_focused(Orientation::Horizontal).unwrap();
    assert!(s.focus_pane_index(0));
    assert_eq!(s.focused_pane(), Some(first));
    assert!(s.focus_pane_index(1));
    assert_eq!(s.focused_pane(), Some(second));
    assert!(!s.focus_pane_index(9));
}

#[test]
fn reorder_workspace_moves_it() {
    let (mut s, ws1) = seeded();
    let ws2 = s.new_workspace("second");
    assert!(s.reorder_workspace(ws2, 0));
    let order: Vec<_> = s.workspaces.iter().map(|w| w.id).collect();
    assert_eq!(order, vec![ws2, ws1]);
}

#[test]
fn dismiss_and_mark_one_notification() {
    let (mut s, ws) = seeded();
    let bg = s.workspace(ws).unwrap().tabs[0].focused.unwrap();
    s.add_tab(ws);
    let id = s.notify(bg, "a", "", 1).unwrap();
    let id2 = s.notify(bg, "b", "", 2).unwrap();
    assert!(s.mark_notification_read(id));
    assert_eq!(s.notifications.unread_count(), 1);
    assert!(s.dismiss_notification(id2));
    assert_eq!(s.notifications.entries().len(), 1);
}

#[test]
fn focus_dir_moves_between_split_panes() {
    let (mut s, _ws) = seeded();
    let left = s.focused_pane().unwrap();
    let right = s.split_focused(Orientation::Horizontal).unwrap();
    assert_eq!(s.focused_pane(), Some(right));
    assert!(s.focus_dir(FocusDir::Left));
    assert_eq!(s.focused_pane(), Some(left));
    assert!(!s.focus_dir(FocusDir::Left));
}

#[test]
fn summarize_reflects_topology() {
    let mut s = AppState::new();
    let ws = s.new_workspace("proj");
    s.split_focused(Orientation::Horizontal);
    let summary = summarize(&s);
    assert_eq!(summary.len(), 1);
    assert_eq!(summary[0].id, ws);
    assert!(summary[0].active);
    assert_eq!(summary[0].tabs.len(), 1);
    assert_eq!(summary[0].tabs[0].panes.len(), 2);
    assert!(summary[0].tabs[0].panes.iter().filter(|p| p.focused).count() == 1);
}

#[test]
fn split_dir_maps_to_orientation() {
    assert_eq!(Orientation::from(SplitDir::Horizontal), Orientation::Horizontal);
    assert_eq!(Orientation::from(SplitDir::Vertical), Orientation::Vertical);
}

#[test]
fn split_then_close_pane_restores_tab_leaves() {
    let (mut s, _ws) = seeded();
    let a = s.focused_pane().unwrap();
    let before = s.active_workspace().unwrap().active_tab().unwrap().panes();
    let b = s.split_pane(a, Orientation::Vertical).unwrap();
    assert!(s.close_pane(b));
    assert_eq!(s.active_workspace().unwrap().active_tab().unwrap().panes(), before);
    assert_eq!(s.focused_pane(), Some(a));
}

#[test]
fn new_workspace_ids_increase() {
    let mut s = AppState::new();
    let a = s.new_workspace("a");
    let b = s.new_workspace("b");
    assert!(a.raw() < b.raw());
    assert_eq!(s.active_id(), Some(a));
    assert_eq!(s.workspace_list().len(), 2);
    assert_eq!(s.add_tab(WorkspaceId(999)), None);
    assert!(!s.focus_workspace(WorkspaceId(999)));
}

#[test]
fn state_rebuilds_from_its_parts() {
    let mut s = AppState::new();
    let ws = s.new_workspace("proj");
    let extra = s.add_tab(ws).unwrap();
    let p = s.split_focused(Orientation::Vertical).unwrap();
    assert!(s.close_tab(ws, extra));
    let first = s.workspace_list()[0].tabs[0].focused.unwrap();
    s.notify(first, "Agent", "done", 7);

    let panes = s.pane_ids().into_iter().map(|id| s.pane(id).unwrap().clone()).collect();
    let closed: Vec<ClosedTab> = s.closed_tab_list().to_vec();
    let before = summarize(&s);
    let workspaces = std::mem::take(&mut s.workspaces);
    let back = AppState::from_parts(
        workspaces,
        s.active_id(),
        panes,
        NotificationFeed::from_parts(s.notification_entries().to_vec(), s.feed_next_id()),
        closed.clone(),
        IdGen::starting_at(s.next_id_value()),
    );
    assert_eq!(summarize(&back), before);
    assert_eq!(back.workspace_list().len(), 1);
    assert_eq!(back.notification_entries(), s.notification_entries());
    assert_eq!(back.feed_next_id(), s.feed_next_id());
    assert_eq!(back.closed_tab_list().len(), closed.len());
    for (a, b) in back.closed_tab_list().iter().zip(&closed) {
        assert_eq!((a.workspace, &a.title), (b.workspace, &b.title));
    }
    assert_eq!(back.next_id_value(), s.next_id_value());
    assert!(back.pane(p).is_none());
    assert_eq!(back.pane(first).unwrap().ring, s.pane(first).unwrap().ring);
}
