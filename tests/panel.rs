use gjwidgets::config::WorkspacesConfig;
use gjwidgets::listener::{
    is_refresh_event, socket_path, ConnectionState, ListenerAction, ListenerError, ListenerEvent,
    SocketListener,
};
use gjwidgets::widget::{PollAction, WorkspacesWidget};
use gjwidgets::workspace::Workspace;
use std::sync::mpsc;

fn ids(ws: &[Workspace]) -> Vec<i32> {
    ws.iter().map(|w| w.id()).collect()
}

fn snapshot(ids: &[i32]) -> Vec<Workspace> {
    ids.iter()
        .map(|i| Workspace::new(*i, i.to_string(), 0, false))
        .collect()
}

#[test]
fn first_poll_starts_the_listener_once() {
    let mut w = WorkspacesWidget::new(WorkspacesConfig {});
    assert!(!w.is_listening());
    assert_eq!(w.begin_poll(), PollAction::StartListener);
    assert!(w.is_listening());
    assert_eq!(w.begin_poll(), PollAction::Drain);
    assert_eq!(w.begin_poll(), PollAction::Drain);
    assert!(w.workspaces.is_empty());
}

#[test]
fn drain_is_last_write_wins() {
    let mut w = WorkspacesWidget::new(WorkspacesConfig {});
    let (tx, rx) = mpsc::channel::<Vec<Workspace>>();
    tx.send(snapshot(&[1, 2])).unwrap();
    tx.send(snapshot(&[3])).unwrap();
    let received: Vec<Vec<Workspace>> = rx.try_iter().collect();
    w.apply_snapshots(received);
    assert_eq!(ids(&w.workspaces), vec![3]);
}

#[test]
fn empty_drain_keeps_state() {
    let mut w = WorkspacesWidget::new(WorkspacesConfig {});
    w.apply_snapshots(vec![snapshot(&[4, 5])]);
    w.apply_snapshots(Vec::new());
    assert_eq!(ids(&w.workspaces), vec![4, 5]);
}

#[test]
fn connect_failure_keeps_prior_state() {
    let mut w = WorkspacesWidget::new(WorkspacesConfig {});
    assert_eq!(w.begin_poll(), PollAction::StartListener);
    let mut listener = SocketListener::new();
    assert_eq!(listener.step(ListenerEvent::OpenFailed), ListenerAction::Terminate);
    assert_eq!(listener.state, ConnectionState::Disconnected);
    let (tx, rx) = mpsc::channel::<Vec<Workspace>>();
    drop(tx);
    let received: Vec<Vec<Workspace>> = rx.try_iter().collect();
    w.apply_snapshots(received);
    assert!(w.workspaces.is_empty());
    assert_eq!(w.begin_poll(), PollAction::Drain);
}

#[test]
fn workspace_update_from_query_output() {
    let mut w = WorkspacesWidget::new(WorkspacesConfig {});
    let listing = "workspace ID 1 (one) on A:\n\tmonitorID: 0\n\nworkspace ID 2 (two) on A:\n\tmonitorID: 1\n";
    w.handle_workspace_update(Some(listing), Some("\tworkspace: 1 (one)\n"));
    assert_eq!(ids(&w.workspaces), vec![1, 2]);
    assert!(w.workspaces[0].active());
    assert!(!w.workspaces[1].active());
    w.handle_workspace_update(None, None);
    assert_eq!(ids(&w.workspaces), vec![1, 2]);
}

#[test]
fn socket_path_needs_both_values() {
    assert_eq!(
        socket_path(Some("/run/user/1000"), Some("abc")).unwrap(),
        "/run/user/1000/hypr/abc/.socket2.sock"
    );
    assert_eq!(socket_path(None, Some("abc")), Err(ListenerError::MissingRuntimeDir));
    assert_eq!(
        socket_path(Some("/run"), None),
        Err(ListenerError::MissingInstanceSignature)
    );
}

#[test]
fn refresh_events() {
    assert!(is_refresh_event("workspace>>3"));
    assert!(is_refresh_event("focusedmon>>DP-1,2"));
    assert!(is_refresh_event("activewindow>>kitty,title"));
    assert!(!is_refresh_event("openwindow>>a,b,c,d"));
    assert!(!is_refresh_event("workspace"));
    assert!(!is_refresh_event(""));
}

#[test]
fn listener_lifecycle() {
    let mut l = SocketListener::new();
    assert_eq!(l.step(ListenerEvent::Opened), ListenerAction::SendSnapshot);
    assert_eq!(l.state, ConnectionState::Connected);
    assert_eq!(
        l.step(ListenerEvent::Line("workspace>>2".to_string())),
        ListenerAction::SendSnapshot
    );
    assert_eq!(
        l.step(ListenerEvent::Line("openlayer>>bar".to_string())),
        ListenerAction::ReadNext
    );
    assert_eq!(l.step(ListenerEvent::Closed), ListenerAction::Terminate);
    assert_eq!(l.state, ConnectionState::Disconnected);
    assert_eq!(
        l.step(ListenerEvent::Line("workspace>>2".to_string())),
        ListenerAction::Terminate
    );
}
