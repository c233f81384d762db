//! The dashboard's exit control: the quit key ends the main loop.

use vstd::prelude::*;

verus! {

/// The key that quits the dashboard.
pub const QUIT_KEY: char = 'q';

/// The main loop's control state, owned by the loop.
#[derive(Debug, Default)]
pub struct App {
    exit: bool,
}

impl App {
    /// Whether the main loop is to return.
    pub closed spec fn exiting(&self) -> bool {
        self.exit
    }

    pub fn new() -> (r: App)
        ensures
            !r.exiting(),
    {
        App { exit: false }
    }

    pub fn should_exit(&self) -> (r: bool)
        ensures
            r == self.exiting(),
    {
        self.exit
    }

    /// Handles one key press: the quit key sets the exit flag; no other key
    /// has any effect.
    pub fn handle_key_event(&mut self, key: char)
        ensures
            final(self).exiting() == (old(self).exiting() || key == QUIT_KEY),
    {
        if key == QUIT_KEY {
            self.exit();
        }
    }

    /// Sets the exit flag.
    pub fn exit(&mut self)
        ensures
            final(self).exiting(),
    {
        self.exit = true;
    }
}

} // verus!
