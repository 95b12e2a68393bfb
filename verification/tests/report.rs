use cmux::ids::{PaneId, TabId, WorkspaceId};
use cmux::notification::Notification;
use cmux::protocol::{summarize, PaneSummary, Response, TabSummary, WorkspaceSummary};
use cmux::report::{response_text, tree_text};
use cmux::workspace::AppState;

#[test]
fn one_line_answers() {
    assert_eq!(response_text(&Response::Done), ("ok\n".to_string(), false));
    assert_eq!(response_text(&Response::Pong), ("pong\n".to_string(), false));
    assert_eq!(response_text(&Response::Created { id: 42 }), ("created 42\n".to_string(), false));
    assert_eq!(
        response_text(&Response::Error { message: "no such pane".into() }),
        ("error: no such pane\n".to_string(), true)
    );
    assert_eq!(response_text(&Response::Snapshot { text: "a\nb".into() }), ("a\nb".to_string(), false));
}

#[test]
fn tree_marks_active_focused_and_ringing() {
    let ws = vec![
        WorkspaceSummary {
            id: WorkspaceId(1),
            title: "proj".into(),
            active: true,
            tabs: vec![TabSummary {
                id: TabId(3),
                title: "1".into(),
                active: true,
                attention: true,
                panes: vec![
                    PaneSummary { id: PaneId(2), title: "terminal".into(), focused: true, ring: "idle".into() },
                    PaneSummary { id: PaneId(4), title: "agent".into(), focused: false, ring: "attention".into() },
                ],
            }],
        },
        WorkspaceSummary { id: WorkspaceId(5), title: "other".into(), active: false, tabs: vec![] },
    ];
    assert_eq!(
        tree_text(&ws),
        "* workspace:1 proj\n  > tab:3 1 \u{25cf}\n    \u{b7} surface:2 terminal\n      surface:4 agent [attention]\n  workspace:5 other\n"
    );
}

#[test]
fn tree_of_a_fresh_workspace() {
    let mut s = AppState::new();
    s.new_workspace("w");
    let (text, err) = response_text(&Response::Workspaces { workspaces: summarize(&s) });
    assert!(!err);
    assert_eq!(text, "* workspace:1 w\n  > tab:3 1\n    \u{b7} surface:2 terminal\n");
}

#[test]
fn matches_and_notifications() {
    assert_eq!(
        response_text(&Response::Matches { matches: vec![(0, 3), (12, 0)] }).0,
        "2 match(es)\n  line 0, col 3\n  line 12, col 0\n"
    );
    assert_eq!(response_text(&Response::Notifications { notifications: vec![] }).0, "(no notifications)\n");
    let n = Notification {
        id: 0,
        workspace: WorkspaceId(1),
        tab: TabId(3),
        pane: PaneId(2),
        title: "Agent".into(),
        body: "done".into(),
        created_at_ms: 0,
        read: false,
    };
    let read = Notification { read: true, ..n.clone() };
    assert_eq!(
        response_text(&Response::Notifications { notifications: vec![n, read] }).0,
        "\u{2022} surface:2 Agent \u{2014} done\n  surface:2 Agent \u{2014} done\n"
    );
}
