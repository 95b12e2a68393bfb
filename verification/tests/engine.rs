use cmux::config::{ActionDef, ActionTarget, Notifications, SidebarPosition};
use cmux::engine::{Engine, KeyRoute, Step};
use cmux::view::pane_class;
use cmux::keys::{KeyInput, Mods};
use cmux::shortcuts::default_shortcuts;
use cmux::ids::PaneId;
use cmux::protocol::{summarize, Dir, Request, Response, SplitDir};
use cmux::pty::{PtyError, PtyGeometry};
use cmux::split::Orientation;

fn alerts() -> Notifications {
    Notifications { enabled: true, ring_on_bell: true, sound: false }
}

/// Attach an emulator to every pane that needs one, as the app does after
/// spawning each pane's shell.
fn sync(e: &mut Engine) {
    for p in e.spawn_plan() {
        e.attach_runtime(p);
    }
    e.drop_stale_runtimes();
}

fn engine() -> Engine {
    let mut e = Engine::new(alerts());
    sync(&mut e);
    e
}

fn reply(s: Step) -> Response {
    match s {
        Step::Reply(r) => r,
        other => panic!("expected a reply, got {other:?}"),
    }
}

#[test]
fn split_via_request_creates_pane_and_runtime() {
    let mut e = engine();
    let resp = reply(e.handle_request(
        Request::Split { pane: None, orientation: SplitDir::Horizontal },
        0,
    ));
    sync(&mut e);
    let id = match resp {
        Response::Created { id } => id,
        other => panic!("expected Created, got {other:?}"),
    };
    assert!(e.terminal(PaneId(id)).is_some());
    assert_eq!(e.active_layout().len(), 2);
}

#[test]
fn dispatch_split_and_close_actions() {
    let mut e = engine();
    assert_eq!(e.active_layout().len(), 1);
    assert!(e.dispatch_action("splitVertical"));
    assert_eq!(e.active_layout().len(), 2);
    assert!(e.dispatch_action("closePane"));
    assert_eq!(e.active_layout().len(), 1);
}

#[test]
fn dispatch_tab_actions_and_reopen() {
    let mut e = engine();
    let ws = e.state.active_workspace.unwrap();
    assert!(e.dispatch_action("newTab"));
    assert_eq!(e.state.workspace(ws).unwrap().tabs.len(), 2);
    assert!(e.dispatch_action("closeTab"));
    assert_eq!(e.state.workspace(ws).unwrap().tabs.len(), 1);
    assert!(e.dispatch_action("reopenClosedTab"));
    assert_eq!(e.state.workspace(ws).unwrap().tabs.len(), 2);
}

#[test]
fn dispatch_focus_directions() {
    let mut e = engine();
    let left = e.state.focused_pane().unwrap();
    let right = e.split_focused(Orientation::Horizontal).unwrap();
    assert_eq!(e.state.focused_pane(), Some(right));
    assert!(e.dispatch_action("focusLeft"));
    assert_eq!(e.state.focused_pane(), Some(left));
}

#[test]
fn dispatch_unknown_action_is_noop() {
    let mut e = engine();
    assert!(!e.dispatch_action("commandPalette"));
    assert!(!e.dispatch_action("totallyMadeUp"));
}

#[test]
fn resize_pane_succeeds_for_live_pane() {
    let mut e = engine();
    let p = e.state.focused_pane().unwrap();
    assert!(e.resize_pane(p, 40, 120));
    assert_eq!(e.terminal(p).unwrap().rows(), 40);
    assert_eq!(e.terminal(p).unwrap().cols(), 120);
}

#[test]
fn jump_to_latest_unread_focuses_pane() {
    let mut e = engine();
    let bg = e.state.active_workspace().unwrap().tabs[0].focused.unwrap();
    e.new_tab();
    e.state.notify(bg, "Agent", "ping", 1);
    assert!(e.dispatch_action("jumpToLatestNotification"));
    assert_eq!(e.state.focused_pane(), Some(bg));
}

#[test]
fn open_browser_pane_has_no_pty_runtime() {
    let mut e = engine();
    let id = reply(e.handle_request(
        Request::OpenBrowser { url: "https://example.com".into(), orientation: SplitDir::Horizontal },
        0,
    ));
    sync(&mut e);
    let id = match id {
        Response::Created { id } => PaneId(id),
        other => panic!("expected Created, got {other:?}"),
    };
    assert!(e.state.pane(id).unwrap().is_browser());
    assert!(e.terminal(id).is_none());
    assert!(matches!(
        reply(e.handle_request(Request::NavigateBrowser { pane: id, url: "https://docs.rs".into() }, 0)),
        Response::Done
    ));
    assert_eq!(e.state.pane(id).unwrap().browser_url(), Some("https://docs.rs"));
}

#[test]
fn no_session_path_means_fresh_workspace() {
    let e = Engine::new(alerts());
    assert_eq!(e.state.workspaces.len(), 1);
}

#[test]
fn close_pane_request_removes_runtime() {
    let mut e = engine();
    let new = match reply(e.handle_request(Request::Split { pane: None, orientation: SplitDir::Vertical }, 0)) {
        Response::Created { id } => PaneId(id),
        _ => unreachable!(),
    };
    sync(&mut e);
    assert!(e.terminal(new).is_some());
    assert!(matches!(reply(e.handle_request(Request::ClosePane { pane: new }, 0)), Response::Done));
    sync(&mut e);
    assert!(e.terminal(new).is_none());
}

#[test]
fn snapshot_request_returns_text() {
    let mut e = engine();
    let focused = e.state.focused_pane().unwrap();
    assert!(e.feed_pane(focused, b"cmuxhello\r\n"));
    match reply(e.handle_request(Request::Snapshot { pane: focused }, 0)) {
        Response::Snapshot { text } => assert!(text.contains("cmuxhello")),
        other => panic!("expected Snapshot, got {other:?}"),
    }
}

#[test]
fn osc_notification_from_pty_output() {
    let mut e = engine();
    let p = e.state.focused_pane().unwrap();
    e.feed_pane(p, b"\x1b]777;notify;Agent;needs input\x07");
    e.collect_signals(5);
    assert!(e
        .notifications()
        .iter()
        .any(|n| n.title == "Agent" && n.body == "needs input" && n.created_at_ms == 5));
}

#[test]
fn osc_title_sets_pane_title() {
    let mut e = engine();
    let p = e.state.focused_pane().unwrap();
    e.feed_pane(p, b"\x1b]0;my-task\x07");
    e.collect_signals(0);
    assert_eq!(e.state.pane(p).map(|p| p.title.as_str()), Some("my-task"));
    assert_eq!(e.terminal(p).unwrap().title(), None);
}

#[test]
fn bell_rings_only_when_enabled() {
    let mut e = engine();
    let bg = e.state.focused_pane().unwrap();
    e.new_tab();
    sync(&mut e);
    e.feed_pane(bg, b"\x07");
    e.collect_signals(1);
    let n = e.notifications();
    assert_eq!(n.len(), 1);
    assert_eq!(n[0].title, "Bell");
    assert_eq!(n[0].body, "terminal bell");

    let mut quiet = Engine::new(Notifications { enabled: true, ring_on_bell: false, sound: false });
    sync(&mut quiet);
    let p = quiet.state.focused_pane().unwrap();
    quiet.feed_pane(p, b"\x07");
    quiet.collect_signals(1);
    assert!(quiet.notifications().is_empty());
    assert!(!quiet.terminal(p).unwrap().bell_rang());
}

#[test]
fn send_and_send_key_ask_for_writes() {
    let mut e = engine();
    let p = e.state.focused_pane().unwrap();
    match e.handle_request(Request::Send { pane: None, data: "ls\n".into() }, 0) {
        Step::Write { pane, bytes } => {
            assert_eq!(pane, p);
            assert_eq!(bytes, b"ls\n".to_vec());
        }
        other => panic!("expected a write, got {other:?}"),
    }
    match e.handle_request(Request::SendKey { pane: Some(p), key: "ctrl+c".into() }, 0) {
        Step::Write { bytes, .. } => assert_eq!(bytes, vec![0x03]),
        other => panic!("expected a write, got {other:?}"),
    }
    match reply(e.handle_request(Request::SendKey { pane: Some(p), key: "frob".into() }, 0)) {
        Response::Error { message } => assert_eq!(message, "unknown key: frob"),
        other => panic!("expected an error, got {other:?}"),
    }
    match reply(e.handle_request(Request::Send { pane: Some(PaneId(999)), data: "x".into() }, 0)) {
        Response::Error { message } => assert_eq!(message, "no such pane"),
        other => panic!("expected an error, got {other:?}"),
    }
    assert_eq!(Engine::write_reply(true), Response::Done);
}

#[test]
fn find_and_resize_requests() {
    let mut e = engine();
    let p = e.state.focused_pane().unwrap();
    e.feed_pane(p, b"alpha beta\r\nbeta");
    match reply(e.handle_request(Request::Find { pane: p, query: "BETA".into() }, 0)) {
        Response::Matches { matches } => assert_eq!(matches, vec![(0, 6), (1, 0)]),
        other => panic!("expected matches, got {other:?}"),
    }
    match e.handle_request(Request::ResizePane { pane: p, rows: 0, cols: 30 }, 0) {
        Step::Resize { pane, rows, cols } => assert_eq!((pane, rows, cols), (p, 1, 30)),
        other => panic!("expected a resize, got {other:?}"),
    }
    assert_eq!(e.terminal(p).unwrap().rows(), 1);
    assert!(matches!(
        reply(e.handle_request(Request::ResizePane { pane: PaneId(77), rows: 5, cols: 5 }, 0)),
        Response::Error { .. }
    ));
}

#[test]
fn config_requests_are_handed_back() {
    let mut e = engine();
    match e.handle_request(Request::GetConfig { path: Some("appearance.theme".into()) }, 0) {
        Step::GetConfig { path } => assert_eq!(path.as_deref(), Some("appearance.theme")),
        other => panic!("expected GetConfig, got {other:?}"),
    }
    match e.handle_request(Request::SetConfig { path: "a.b".into(), value: "1".into() }, 0) {
        Step::SetConfig { path, value } => assert_eq!((path.as_str(), value.as_str()), ("a.b", "1")),
        other => panic!("expected SetConfig, got {other:?}"),
    }
}

#[test]
fn topology_requests_answer() {
    let mut e = engine();
    assert!(matches!(reply(e.handle_request(Request::Ping, 0)), Response::Pong));
    match reply(e.handle_request(Request::NewWorkspace { title: None }, 0)) {
        Response::Created { id } => assert_eq!(e.state.workspace(cmux::ids::WorkspaceId(id)).unwrap().title, "workspace"),
        other => panic!("expected Created, got {other:?}"),
    }
    match reply(e.handle_request(Request::ListWorkspaces, 0)) {
        Response::Workspaces { workspaces } => assert_eq!(workspaces.len(), 2),
        other => panic!("expected Workspaces, got {other:?}"),
    }
    assert!(matches!(reply(e.handle_request(Request::Equalize, 0)), Response::Done));
    assert!(matches!(reply(e.handle_request(Request::NextTab, 0)), Response::Error { .. }));
    assert!(matches!(
        reply(e.handle_request(Request::DismissNotification { id: 3 }, 0)),
        Response::Error { .. }
    ));
}

#[test]
fn pty_vocabulary() {
    assert_eq!(PtyGeometry::new(3, 4), PtyGeometry { rows: 3, cols: 4 });
    assert_eq!(PtyGeometry::default(), PtyGeometry { rows: 24, cols: 80 });
    assert_eq!(PtyError::Spawn("boom".into()).message(), "failed to spawn command: boom");
    assert_eq!(
        PtyError::NoCommand.message(),
        "no command configured and no shell could be determined"
    );
    let e = PtyError::Write(std::io::Error::other("gone"));
    assert!(e.message().starts_with("failed to write to pty: "));
}

#[test]
fn snapshot_lists_workspaces_tabs_and_panes() {
    let mut e = engine();
    let first = e.state.focused_pane().unwrap();
    let second = e.new_workspace("second");
    assert!(e.state.focus_workspace(second));
    let snap = e.snapshot(SidebarPosition::Left);
    assert!(snap.sidebar_left);
    assert_eq!(snap.workspaces.len(), 2);
    assert_eq!(snap.workspaces[0].title, "workspace");
    assert!(!snap.workspaces[0].active);
    assert!(snap.workspaces[1].active);
    assert_eq!(snap.tabs.len(), 1);
    assert!(snap.tabs[0].active);
    assert_eq!(snap.panes.len(), 1);
    assert!(snap.panes[0].focused);
    assert_eq!(snap.panes[0].rect.w, 10000);
    // The new workspace's pane has no emulator until the app attaches one.
    assert!(snap.panes[0].rows.is_empty());
    assert!(snap.panes[0].alive);
    assert_eq!(snap.unread, 0);

    e.state.notify(first, "Agent", "ping", 1);
    assert!(e.state.focus_workspace(snap.workspaces[0].id));
    e.feed_pane(first, b"hi");
    let snap = e.snapshot(SidebarPosition::Right);
    assert!(!snap.sidebar_left);
    assert_eq!(snap.unread, 1);
    assert!(snap.workspaces[0].active);
    assert!(snap.tabs[0].attention);
    assert_eq!(snap.panes[0].id, first);
    assert_eq!(snap.panes[0].rows.len(), 24);
    assert!(snap.panes[0].rows[0][0].text.starts_with("hi"));
}

#[test]
fn new_engine_has_focused_pane_with_runtime() {
    let mut e = engine();
    let focused = e.state.focused_pane().unwrap();
    e.collect_signals(0);
    assert!(e.terminal(focused).is_some());
}

#[test]
fn open_and_navigate_browser_directly() {
    let mut e = engine();
    let term = e.state.focused_pane().unwrap();
    let p = e.open_browser("https://a.example", Orientation::Horizontal).unwrap();
    assert_eq!(e.active_layout().len(), 2);
    assert_eq!(e.state.pane(p).unwrap().browser_url(), Some("https://a.example"));
    assert!(e.navigate_browser(p, "https://b.example"));
    assert_eq!(e.state.pane(p).unwrap().browser_url(), Some("https://b.example"));
    // A terminal pane cannot be navigated.
    assert!(!e.navigate_browser(term, "https://c.example"));
    assert_eq!(e.focused_runtime(), None);
    assert!(e.state.focus_pane(term));
    assert_eq!(e.focused_runtime(), Some(term));
}

#[test]
fn keyboard_and_socket_agree() {
    // Split, then move focus back, new tab, new workspace, close the focused
    // pane: once by keyboard actions, once by control requests.
    let mut k = engine();
    let mut c = engine();
    assert!(k.dispatch_action("splitVertical"));
    assert!(matches!(
        reply(c.handle_request(Request::Split { pane: None, orientation: SplitDir::Vertical }, 0)),
        Response::Created { .. }
    ));
    assert_eq!(summarize(&k.state), summarize(&c.state));

    assert!(k.dispatch_action("focusUp"));
    assert!(matches!(reply(c.handle_request(Request::FocusDir { dir: Dir::Up }, 0)), Response::Done));
    assert_eq!(summarize(&k.state), summarize(&c.state));
    assert!(!k.dispatch_action("focusUp"));
    assert!(matches!(reply(c.handle_request(Request::FocusDir { dir: Dir::Up }, 0)), Response::Error { .. }));

    assert!(k.dispatch_action("newTab"));
    assert!(matches!(reply(c.handle_request(Request::NewTab { workspace: None }, 0)), Response::Created { .. }));
    assert_eq!(summarize(&k.state), summarize(&c.state));

    assert!(k.dispatch_action("newWorkspace"));
    assert!(matches!(reply(c.handle_request(Request::NewWorkspace { title: None }, 0)), Response::Created { .. }));
    assert_eq!(summarize(&k.state), summarize(&c.state));

    let focused = k.state.focused_pane().unwrap();
    assert!(k.dispatch_action("closePane"));
    assert!(matches!(reply(c.handle_request(Request::ClosePane { pane: focused }, 0)), Response::Done));
    assert_eq!(summarize(&k.state), summarize(&c.state));
}

#[test]
fn run_action_types_the_command() {
    let mut e = engine();
    let focused = e.state.focused_pane().unwrap();
    let here = ActionDef { command: "make".into(), label: None, target: ActionTarget::CurrentPane };
    match e.run_action(&here) {
        Step::Write { pane, bytes } => {
            assert_eq!(pane, focused);
            assert_eq!(bytes, b"make\r".to_vec());
        }
        other => panic!("expected a write, got {other:?}"),
    }
    let tabs = e.state.active_workspace().unwrap().tabs.len();
    let fresh = ActionDef { command: "ls".into(), label: None, target: ActionTarget::NewTab };
    match e.run_action(&fresh) {
        Step::Write { pane, bytes } => {
            assert_eq!(bytes, b"ls\r".to_vec());
            assert_eq!(e.state.focused_pane(), Some(pane));
        }
        other => panic!("expected a write, got {other:?}"),
    }
    assert_eq!(e.state.active_workspace().unwrap().tabs.len(), tabs + 1);
    assert!(matches!(
        e.handle_request(Request::RunAction { name: "x".into() }, 0),
        Step::RunAction { name } if name == "x"
    ));
}

#[test]
fn keys_go_to_shortcuts_first_then_the_focused_pane() {
    let mut e = engine();
    let map = default_shortcuts();
    let none = Mods { ctrl: false, alt: false, shift: false, meta: false };
    let ctrl_shift = Mods { ctrl: true, alt: false, shift: true, meta: false };
    let ctrl_alt = Mods { ctrl: true, alt: true, shift: false, meta: false };
    let focused = e.state.focused_pane().unwrap();
    match e.handle_key(&KeyInput::Character("a".into()), none, &map) {
        KeyRoute::Write { pane, bytes } => {
            assert_eq!(pane, focused);
            assert_eq!(bytes, b"a".to_vec());
        }
        other => panic!("expected a write, got {other:?}"),
    }
    assert!(matches!(e.handle_key(&KeyInput::Character("D".into()), ctrl_shift, &map), KeyRoute::Handled));
    assert_eq!(e.active_layout().len(), 2);
    assert!(matches!(
        e.handle_key(&KeyInput::Character("p".into()), ctrl_shift, &map),
        KeyRoute::Ui(a) if a == "commandPalette"
    ));
    // The new pane has no runtime yet, so typing is ignored.
    assert!(matches!(e.handle_key(&KeyInput::Character("a".into()), none, &map), KeyRoute::Ignored));
    sync(&mut e);
    // focusUp with nothing above changes nothing, so the key is typed.
    assert!(matches!(e.handle_key(&KeyInput::ArrowUp, ctrl_alt, &map), KeyRoute::Write { .. }));
    // focusLeft moves to the first pane.
    assert!(matches!(e.handle_key(&KeyInput::ArrowLeft, ctrl_alt, &map), KeyRoute::Handled));
    assert_eq!(e.state.focused_pane(), Some(focused));
    assert!(matches!(e.handle_key(&KeyInput::Other, none, &map), KeyRoute::Ignored));
}

#[test]
fn pane_classes() {
    let mut e = engine();
    let first = e.state.focused_pane().unwrap();
    let snap = e.snapshot(SidebarPosition::Left);
    assert_eq!(pane_class(&snap.panes[0]), "pane focused");
    e.split_focused(Orientation::Horizontal);
    e.state.notify(first, "Agent", "ping", 1);
    e.mark_exited(first);
    let snap = e.snapshot(SidebarPosition::Left);
    let p0 = snap.panes.iter().find(|p| p.id == first).unwrap();
    assert_eq!(pane_class(p0), "pane attention exited");
    let other = snap.panes.iter().find(|p| p.id != first).unwrap();
    assert_eq!(pane_class(other), "pane focused");
}
