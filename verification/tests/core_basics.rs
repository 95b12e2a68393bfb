use cmux::config::merge_shortcuts;
use cmux::ids::{IdGen, PaneId, TabId, WorkspaceId};
use cmux::notification::NotificationFeed;
use cmux::shortcuts::{default_shortcuts, ShortcutMap};

fn ids() -> (WorkspaceId, TabId, PaneId) {
    (WorkspaceId(1), TabId(2), PaneId(3))
}

#[test]
fn defaults_are_non_empty_and_unique_chords_per_action() {
    let m = default_shortcuts();
    assert!(m.len() >= 15);
    assert_eq!(m.get("splitHorizontal").map(String::as_str), Some("ctrl+shift+d"));
}

#[test]
fn ids_are_unique_and_monotonic() {
    let mut g = IdGen::default();
    let a = g.workspace();
    let b = g.tab();
    let c = g.pane();
    assert_eq!((a.raw(), b.raw(), c.raw()), (1, 2, 3));
}

#[test]
fn display_uses_addressing_prefix() {
    assert_eq!(WorkspaceId(7).to_string(), "workspace:7");
    assert_eq!(PaneId(3).to_string(), "surface:3");
}

#[test]
fn tab_id_display_and_zero() {
    assert_eq!(TabId(0).to_string(), "tab:0");
    assert_eq!(PaneId(1234567).to_string(), "surface:1234567");
}

#[test]
fn push_increments_unread_and_assigns_ids() {
    let (w, t, p) = ids();
    let mut feed = NotificationFeed::default();
    let a = feed.push(w, t, p, "Agent", "needs input", 100);
    let b = feed.push(w, t, p, "Agent", "done", 200);
    assert_eq!((a, b), (0, 1));
    assert_eq!(feed.unread_count(), 2);
}

#[test]
fn latest_unread_is_newest_first() {
    let (w, t, p) = ids();
    let mut feed = NotificationFeed::default();
    feed.push(w, t, p, "old", "", 1);
    feed.push(w, t, p, "new", "", 2);
    assert_eq!(feed.latest_unread().unwrap().title, "new");
}

#[test]
fn marking_pane_read_clears_only_that_pane() {
    let (w, t, _) = ids();
    let mut feed = NotificationFeed::default();
    feed.push(w, t, PaneId(3), "a", "", 1);
    feed.push(w, t, PaneId(4), "b", "", 2);
    assert_eq!(feed.mark_pane_read(PaneId(3)), 1);
    assert_eq!(feed.unread_count(), 1);
    assert_eq!(feed.latest_unread().unwrap().pane, PaneId(4));
}

#[test]
fn prune_pane_removes_entries() {
    let (w, t, p) = ids();
    let mut feed = NotificationFeed::default();
    feed.push(w, t, p, "a", "", 1);
    feed.prune_pane(p);
    assert!(feed.entries().is_empty());
}

#[test]
fn mark_all_read_counts_and_dismiss_removes() {
    let (w, t, p) = ids();
    let mut feed = NotificationFeed::default();
    let a = feed.push(w, t, p, "a", "x", 1);
    let b = feed.push(w, t, p, "b", "y", 2);
    assert!(feed.mark_read(a));
    assert!(!feed.mark_read(99));
    assert_eq!(feed.unread_count(), 1);
    assert_eq!(feed.mark_all_read(), 1);
    assert_eq!(feed.mark_all_read(), 0);
    assert!(feed.dismiss(b));
    assert!(!feed.dismiss(b));
    assert_eq!(feed.entries().len(), 1);
    assert_eq!(feed.entries()[0].id, a);
    assert!(feed.latest_unread().is_none());
}

#[test]
fn shortcut_map_insert_replaces_and_keeps_sorted() {
    let mut m = ShortcutMap::new();
    assert!(m.is_empty());
    m.insert("zeta".to_string(), "ctrl+z".to_string());
    m.insert("alpha".to_string(), "ctrl+a".to_string());
    m.insert("zeta".to_string(), "ctrl+y".to_string());
    assert_eq!(m.len(), 2);
    assert_eq!(m.entries()[0].0, "alpha");
    assert_eq!(m.get("zeta").map(String::as_str), Some("ctrl+y"));
    assert!(m.contains_key("alpha"));
    assert!(!m.contains_key("beta"));
    assert_eq!(m.get("beta"), None);
}

#[test]
fn user_shortcuts_merge_over_defaults() {
    let user = vec![
        ("splitHorizontal".to_string(), Some("alt+d".to_string())),
        ("newTab".to_string(), None),
        ("myAction".to_string(), Some("ctrl+alt+m".to_string())),
    ];
    let m = merge_shortcuts(&user);
    let d = default_shortcuts();
    assert_eq!(m.get("splitHorizontal").map(String::as_str), Some("alt+d"));
    assert_eq!(m.get("newTab"), d.get("newTab"));
    assert_eq!(m.get("myAction").map(String::as_str), Some("ctrl+alt+m"));
    assert_eq!(m.len(), d.len() + 1);
}
