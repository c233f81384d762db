//! The workspace panel's state: which snapshot it shows, and whether its
//! background listener has been started.

use vstd::prelude::*;

use crate::config::WorkspacesConfig;
use crate::workspace::{build_snapshot, snapshot_spec, views, Workspace, WorkspaceView};

verus! {

/// What the caller of [`WorkspacesWidget::begin_poll`] is to do.
#[derive(Debug, Clone, Copy, PartialEq, Eq, Structural)]
pub enum PollAction {
    /// Spawn the one background listener and its channel, then drain it.
    StartListener,
    /// Drain the snapshots that the listener has sent since the last poll.
    Drain,
}

/// The panel state after draining `received` (oldest first): the last
/// snapshot received, or the current one when none came.
pub open spec fn drained_state(current: Seq<WorkspaceView>, received: Seq<Seq<WorkspaceView>>) -> Seq<
    WorkspaceView,
> {
    if received.len() == 0 {
        current
    } else {
        received.last()
    }
}

/// The views of a sequence of snapshots.
pub open spec fn snapshot_views(s: Seq<Vec<Workspace>>) -> Seq<Seq<WorkspaceView>> {
    s.map_values(|w: Vec<Workspace>| views(w@))
}

/// The workspace panel.
pub struct WorkspacesWidget {
    pub config: WorkspacesConfig,
    pub workspaces: Vec<Workspace>,
    connected: bool,
}

impl WorkspacesWidget {
    /// Whether the background listener has been started.
    pub closed spec fn listening(&self) -> bool {
        self.connected
    }

    /// The workspaces the panel shows.
    pub closed spec fn shown(&self) -> Seq<WorkspaceView> {
        views(self.workspaces@)
    }

    /// A panel with no workspaces and no listener.
    pub fn new(config: WorkspacesConfig) -> (r: WorkspacesWidget)
        ensures
            r.shown().len() == 0,
            !r.listening(),
    {
        WorkspacesWidget { config, workspaces: Vec::new(), connected: false }
    }

    /// The workspaces the panel shows.
    pub fn shown_workspaces(&self) -> (r: &Vec<Workspace>)
        ensures
            views(r@) == self.shown(),
    {
        &self.workspaces
    }

    pub fn is_listening(&self) -> (r: bool)
        ensures
            r == self.listening(),
    {
        self.connected
    }

    /// Starts a poll: the first one asks for the listener to be started, every
    /// later one for a drain. The shown workspaces do not change.
    pub fn begin_poll(&mut self) -> (r: PollAction)
        ensures
            r == (if old(self).listening() {
                PollAction::Drain
            } else {
                PollAction::StartListener
            }),
            final(self).listening(),
            final(self).shown() == old(self).shown(),
    {
        if self.connected {
            PollAction::Drain
        } else {
            self.connected = true;
            PollAction::StartListener
        }
    }

    /// Takes the snapshots drained from the listener's channel, oldest first:
    /// the last one becomes the shown state and the older ones are dropped.
    /// With none, the shown state stays.
    pub fn apply_snapshots(&mut self, received: Vec<Vec<Workspace>>)
        ensures
            final(self).shown() == drained_state(
                old(self).shown(),
                snapshot_views(received@),
            ),
            final(self).listening() == old(self).listening(),
    {
        let mut received = received;
        match received.pop() {
            Some(latest) => {
                self.workspaces = latest;
            },
            None => {},
        }
    }

    /// Refreshes the shown state from a fresh workspace listing and, where the
    /// query gave one, the active-window report. Without a listing (the query
    /// failed) the shown state stays.
    pub fn handle_workspace_update(&mut self, listing: Option<&str>, report: Option<&str>)
        ensures
            final(self).shown() == match listing {
                Some(l) => snapshot_spec(
                    l@,
                    match report {
                        Some(t) => Some(t@),
                        None => None,
                    },
                ),
                None => old(self).shown(),
            },
            final(self).listening() == old(self).listening(),
    {
        match listing {
            Some(l) => {
                self.workspaces = build_snapshot(l, report);
            },
            None => {},
        }
    }
}

/// Draining is last-write-wins: after snapshots `s1` then `s2` arrive before
/// one drain, the panel shows exactly `s2`.
pub proof fn lemma_drain_last_write_wins(
    current: Seq<WorkspaceView>,
    s1: Seq<WorkspaceView>,
    s2: Seq<WorkspaceView>,
)
    ensures
        drained_state(current, seq![s1, s2]) == s2,
{
}

} // verus!
