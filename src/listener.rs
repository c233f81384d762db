//! Decisions of the background listener that follows the window manager's
//! event socket: where the socket is, which notifications call for a fresh
//! snapshot, and when the listener stops.

use vstd::prelude::*;
use vstd::string::StringExecFns;

use crate::text::{chars_of, has_prefix, starts_with_at};
use crate::widget::drained_state;
use crate::workspace::WorkspaceView;

verus! {

/// Why the listener cannot find the event socket.
#[derive(Debug, Clone, Copy, PartialEq, Eq, Structural)]
pub enum ListenerError {
    /// The runtime directory is not set.
    MissingRuntimeDir,
    /// The window manager's instance signature is not set.
    MissingInstanceSignature,
}

/// The event socket's path under a runtime directory for one instance.
pub open spec fn socket_path_spec(runtime_dir: Seq<char>, signature: Seq<char>) -> Seq<char> {
    runtime_dir + "/hypr/"@ + signature + "/.socket2.sock"@
}

/// The event socket's path, from the runtime directory and the instance
/// signature; both are required.
pub fn socket_path(runtime_dir: Option<&str>, signature: Option<&str>) -> (r: Result<
    String,
    ListenerError,
>)
    ensures
        match (runtime_dir, signature) {
            (None, _) => r == Err::<String, ListenerError>(ListenerError::MissingRuntimeDir),
            (Some(_), None) => r == Err::<String, ListenerError>(
                ListenerError::MissingInstanceSignature,
            ),
            (Some(d), Some(s)) => r matches Ok(p) && p@ == socket_path_spec(d@, s@),
        },
{
    match runtime_dir {
        None => Err(ListenerError::MissingRuntimeDir),
        Some(d) => match signature {
            None => Err(ListenerError::MissingInstanceSignature),
            Some(s) => {
                let p = String::from_str(d).concat("/hypr/").concat(s).concat("/.socket2.sock");
                Ok(p)
            },
        },
    }
}

/// A notification line that calls for a fresh snapshot: a workspace change,
/// a monitor focus change or an active-window change.
pub open spec fn is_refresh_event_spec(line: Seq<char>) -> bool {
    has_prefix(line, "workspace>>"@) || has_prefix(line, "focusedmon>>"@) || has_prefix(
        line,
        "activewindow>>"@,
    )
}

pub fn is_refresh_event(line: &str) -> (r: bool)
    ensures
        r == is_refresh_event_spec(line@),
{
    let v = chars_of(line);
    proof {
        assert(v@.subrange(0, v.len() as int) =~= v@);
    }
    starts_with_at(&v, 0, v.len(), &chars_of("workspace>>")) || starts_with_at(
        &v,
        0,
        v.len(),
        &chars_of("focusedmon>>"),
    ) || starts_with_at(&v, 0, v.len(), &chars_of("activewindow>>"))
}

/// What happened to the listener's connection.
#[derive(Debug)]
pub enum ListenerEvent {
    /// The socket was opened.
    Opened,
    /// The socket could not be opened.
    OpenFailed,
    /// One notification line was read.
    Line(String),
    /// Reading failed.
    ReadFailed,
    /// The window manager closed the stream.
    Closed,
}

/// What the listener is to do next.
#[derive(Debug, Clone, Copy, PartialEq, Eq, Structural)]
pub enum ListenerAction {
    /// Fetch a snapshot and send it to the panel, then read on.
    SendSnapshot,
    /// Read the next line.
    ReadNext,
    /// End the worker; it is not restarted.
    Terminate,
}

/// The listener's connection state.
#[derive(Debug, Clone, Copy, PartialEq, Eq, Structural)]
pub enum ConnectionState {
    Disconnected,
    Connected,
}

/// The state that `event` leads to, and the action it calls for.
pub open spec fn listener_step_spec(state: ConnectionState, event: ListenerEvent) -> (
    ConnectionState,
    ListenerAction,
) {
    match (state, event) {
        (ConnectionState::Disconnected, ListenerEvent::Opened) => (
            ConnectionState::Connected,
            ListenerAction::SendSnapshot,
        ),
        (ConnectionState::Connected, ListenerEvent::Line(l)) => (
            ConnectionState::Connected,
            if is_refresh_event_spec(l@) {
                ListenerAction::SendSnapshot
            } else {
                ListenerAction::ReadNext
            },
        ),
        _ => (ConnectionState::Disconnected, ListenerAction::Terminate),
    }
}

/// The background listener's decisions; the worker that owns the socket
/// performs the actions.
pub struct SocketListener {
    pub state: ConnectionState,
}

impl SocketListener {
    pub fn new() -> (r: SocketListener)
        ensures
            r.state == ConnectionState::Disconnected,
    {
        SocketListener { state: ConnectionState::Disconnected }
    }

    /// Moves to the next state: opening the socket sends the first snapshot,
    /// a refresh notification sends another, any other line is skipped, and a
    /// failure or the end of the stream ends the worker.
    pub fn step(&mut self, event: ListenerEvent) -> (r: ListenerAction)
        ensures
            (final(self).state, r) == listener_step_spec(old(self).state, event),
    {
        let (next, action) = match (self.state, event) {
            (ConnectionState::Disconnected, ListenerEvent::Opened) => (
                ConnectionState::Connected,
                ListenerAction::SendSnapshot,
            ),
            (ConnectionState::Connected, ListenerEvent::Line(l)) => (
                ConnectionState::Connected,
                if is_refresh_event(&l) {
                    ListenerAction::SendSnapshot
                } else {
                    ListenerAction::ReadNext
                },
            ),
            _ => (ConnectionState::Disconnected, ListenerAction::Terminate),
        };
        self.state = next;
        action
    }
}

/// A listener that terminated sends nothing more: every event after a
/// `Terminate` keeps it disconnected but for a fresh `Opened`.
pub proof fn lemma_terminated_listener_stays_silent(event: ListenerEvent)
    requires
        !(event is Opened),
    ensures
        listener_step_spec(ConnectionState::Disconnected, event) == (
            ConnectionState::Disconnected,
            ListenerAction::Terminate,
        ),
{
}

/// A socket that cannot be opened ends the worker before it sends anything,
/// so the panel's next drain receives nothing and it keeps what it showed.
pub proof fn lemma_connect_failure_keeps_panel(current: Seq<WorkspaceView>)
    ensures
        listener_step_spec(ConnectionState::Disconnected, ListenerEvent::OpenFailed) == (
            ConnectionState::Disconnected,
            ListenerAction::Terminate,
        ),
        drained_state(current, Seq::empty()) == current,
{
}

} // verus!
