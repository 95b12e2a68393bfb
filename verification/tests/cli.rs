use cmux::cli::{extract_socket, parse, parse_id};
use cmux::ids::{PaneId, TabId, WorkspaceId};
use cmux::protocol::{Dir, Request, SplitDir, Target};
use std::path::PathBuf;

fn argv(s: &[&str]) -> Vec<String> {
    s.iter().map(|s| s.to_string()).collect()
}

#[test]
fn no_args_prints_usage() {
    assert!(parse(&[]).unwrap().is_none());
    assert!(parse(&argv(&["--help"])).unwrap().is_none());
}

#[test]
fn ping_and_list() {
    assert_eq!(parse(&argv(&["ping"])).unwrap(), Some(Request::Ping));
    assert_eq!(
        parse(&argv(&["list-workspaces"])).unwrap(),
        Some(Request::ListWorkspaces)
    );
}

#[test]
fn send_joins_text_and_takes_pane_flag() {
    let r = parse(&argv(&["send", "--pane", "surface:4", "echo", "hi"])).unwrap();
    assert_eq!(
        r,
        Some(Request::Send {
            pane: Some(PaneId(4)),
            data: "echo hi".into()
        })
    );
}

#[test]
fn send_without_pane_defaults_none() {
    let r = parse(&argv(&["send", "ls"])).unwrap();
    assert_eq!(
        r,
        Some(Request::Send {
            pane: None,
            data: "ls".into()
        })
    );
}

#[test]
fn split_orientation_and_aliases() {
    assert_eq!(
        parse(&argv(&["split", "vertical"])).unwrap(),
        Some(Request::Split {
            pane: None,
            orientation: SplitDir::Vertical
        })
    );
    assert_eq!(
        parse(&argv(&["split", "h"])).unwrap(),
        Some(Request::Split {
            pane: None,
            orientation: SplitDir::Horizontal
        })
    );
    assert!(parse(&argv(&["split", "diagonal"])).is_err());
}

#[test]
fn focus_target_parsing() {
    assert_eq!(
        parse(&argv(&["focus", "workspace:2"])).unwrap(),
        Some(Request::Focus {
            target: Target::Workspace(WorkspaceId(2))
        })
    );
    assert_eq!(
        parse(&argv(&["focus", "5"])).unwrap(),
        Some(Request::Focus {
            target: Target::Pane(PaneId(5))
        })
    );
}

#[test]
fn focus_dir_parsing() {
    assert_eq!(
        parse(&argv(&["focus-dir", "left"])).unwrap(),
        Some(Request::FocusDir { dir: Dir::Left })
    );
    assert!(parse(&argv(&["focus-dir", "sideways"])).is_err());
}

#[test]
fn config_get_set() {
    assert_eq!(
        parse(&argv(&["config", "get", "appearance.fontSize"])).unwrap(),
        Some(Request::GetConfig {
            path: Some("appearance.fontSize".into())
        })
    );
    assert_eq!(
        parse(&argv(&["config", "set", "appearance.theme", "dark"])).unwrap(),
        Some(Request::SetConfig {
            path: "appearance.theme".into(),
            value: "dark".into()
        })
    );
    assert!(parse(&argv(&["config"])).is_err());
}

#[test]
fn notify_collects_body() {
    let r = parse(&argv(&["notify", "surface:3", "Agent", "needs", "input"])).unwrap();
    assert_eq!(
        r,
        Some(Request::Notify {
            pane: PaneId(3),
            title: "Agent".into(),
            body: "needs input".into()
        })
    );
}

#[test]
fn socket_flag_is_extracted() {
    let (sock, rest) = extract_socket(argv(&["--socket", "/tmp/x.sock", "ping"]));
    assert_eq!(sock.map(PathBuf::from), Some(PathBuf::from("/tmp/x.sock")));
    assert_eq!(rest, argv(&["ping"]));
}

#[test]
fn notifications_and_mark_read() {
    assert_eq!(
        parse(&argv(&["notifications"])).unwrap(),
        Some(Request::ListNotifications)
    );
    assert_eq!(
        parse(&argv(&["mark-read"])).unwrap(),
        Some(Request::MarkAllRead)
    );
}

#[test]
fn rename_and_reorder() {
    assert_eq!(
        parse(&argv(&["rename-tab", "tab:3", "my", "build"])).unwrap(),
        Some(Request::RenameTab {
            tab: TabId(3),
            title: "my build".into()
        })
    );
    assert_eq!(
        parse(&argv(&["reorder-tab", "tab:3", "0"])).unwrap(),
        Some(Request::ReorderTab {
            tab: TabId(3),
            index: 0
        })
    );
    assert_eq!(
        parse(&argv(&["resize", "surface:2", "40", "120"])).unwrap(),
        Some(Request::ResizePane {
            pane: PaneId(2),
            rows: 40,
            cols: 120
        })
    );
    assert!(parse(&argv(&["rename-tab", "tab:3"])).is_err());
}

#[test]
fn browser_and_navigate() {
    assert_eq!(
        parse(&argv(&["browser", "https://example.com"])).unwrap(),
        Some(Request::OpenBrowser {
            url: "https://example.com".into(),
            orientation: SplitDir::Horizontal
        })
    );
    assert_eq!(
        parse(&argv(&["navigate", "surface:4", "https://docs.rs"])).unwrap(),
        Some(Request::NavigateBrowser {
            pane: PaneId(4),
            url: "https://docs.rs".into()
        })
    );
    assert!(parse(&argv(&["browser"])).is_err());
}

#[test]
fn find_command() {
    assert_eq!(
        parse(&argv(&["find", "surface:2", "error", "log"])).unwrap(),
        Some(Request::Find {
            pane: PaneId(2),
            query: "error log".into()
        })
    );
    assert!(parse(&argv(&["find", "surface:2"])).is_err());
}

#[test]
fn unknown_command_errors() {
    assert!(parse(&argv(&["frobnicate"])).is_err());
}

#[test]
fn socket_flag_absent_leaves_args() {
    let (sock, rest) = extract_socket(argv(&["ping", "x"]));
    assert_eq!(sock, None);
    assert_eq!(rest, argv(&["ping", "x"]));
}

#[test]
fn parse_id_accepts_prefixed_and_bare() {
    assert_eq!(parse_id("surface:12"), Ok(12));
    assert_eq!(parse_id("7"), Ok(7));
    assert!(parse_id("surface:").is_err());
    assert!(parse_id("x9").is_err());
}

#[test]
fn layout_and_notification_verbs() {
    let p = |v: &[&str]| parse(&v.iter().map(|s| s.to_string()).collect::<Vec<_>>());
    assert_eq!(p(&["equalize"]), Ok(Some(Request::Equalize)));
    assert_eq!(p(&["zoom"]), Ok(Some(Request::ToggleZoom)));
    assert_eq!(p(&["next-tab"]), Ok(Some(Request::NextTab)));
    assert_eq!(p(&["prev-tab"]), Ok(Some(Request::PrevTab)));
    assert_eq!(
        p(&["close-workspace", "workspace:2"]),
        Ok(Some(Request::CloseWorkspace { workspace: WorkspaceId(2) }))
    );
    assert_eq!(
        p(&["reorder-workspace", "workspace:2", "0"]),
        Ok(Some(Request::ReorderWorkspace { workspace: WorkspaceId(2), index: 0 }))
    );
    assert_eq!(p(&["mark-read"]), Ok(Some(Request::MarkAllRead)));
    assert_eq!(p(&["mark-read", "3"]), Ok(Some(Request::MarkNotificationRead { id: 3 })));
    assert_eq!(p(&["dismiss", "0"]), Ok(Some(Request::DismissNotification { id: 0 })));
    assert_eq!(p(&["dismiss"]), Err("dismiss requires a notification id".to_string()));
    assert_eq!(p(&["dismiss", "x"]), Err("notification id must be a number".to_string()));
    assert_eq!(p(&["run", "deploy"]), Ok(Some(Request::RunAction { name: "deploy".into() })));
    assert_eq!(p(&["run"]), Err("run requires an action name".to_string()));
    assert_eq!(p(&["close-workspace"]), Err("close-workspace requires a workspace id".to_string()));
}
