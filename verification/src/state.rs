//! Application-level state: the active mode, quit and help flags, and a
//! transient debug message with its auto-clear timing.

use vstd::prelude::*;

use crate::storage;

verus! {

/// Which top-level view is active.
#[derive(Debug, Clone, Copy, PartialEq, Eq, Structural)]
pub enum AppMode {
    /// File explorer mode.
    Explorer,
    /// Text viewer mode.
    Viewer,
    /// Text editor mode.
    Editor,
}

impl Default for AppMode {
    /// The explorer is the initial mode.
    fn default() -> (r: AppMode)
        ensures
            r == AppMode::Explorer,
    {
        AppMode::Explorer
    }
}

/// Application state shared across modes.
pub struct AppState {
    /// Whether the application should quit.
    pub should_quit: bool,
    /// The active mode.
    pub mode: AppMode,
    /// Whether the help panel is shown.
    pub show_help: bool,
    /// A transient debug message, if one is shown.
    pub debug_message: Option<String>,
    /// When the debug message was set, in seconds since the Unix epoch.
    pub debug_message_time: Option<u64>,
}

impl Default for AppState {
    /// The initial state: explorer mode, no message, not quitting.
    fn default() -> (r: AppState)
        ensures
            r.should_quit == false,
            r.mode == AppMode::Explorer,
            r.show_help == false,
            r.debug_message is None,
            r.debug_message_time is None,
    {
        AppState {
            should_quit: false,
            mode: AppMode::Explorer,
            show_help: false,
            debug_message: None,
            debug_message_time: None,
        }
    }
}

impl AppState {
    /// Shows a transient debug message, stamped with the current clock
    /// reading; the duration is applied later when clearing is polled.
    pub fn set_debug_message(&mut self, message: String, _duration_secs: u64)
        ensures
            final(self).debug_message == Some(message),
            final(self).debug_message_time is Some,
            *final(self) == (AppState {
                debug_message: final(self).debug_message,
                debug_message_time: final(self).debug_message_time,
                ..*old(self)
            }),
    {
        self.debug_message = Some(message);
        self.debug_message_time = Some(storage::now_epoch_secs());
    }

    /// Clears the debug message.
    pub fn clear_debug_message(&mut self)
        ensures
            *final(self) == (AppState {
                debug_message: None,
                debug_message_time: None,
                ..*old(self)
            }),
    {
        self.debug_message = None;
        self.debug_message_time = None;
    }

    /// Whether a message stamped `t` has outlived `duration_secs` by the
    /// time `now` (a clock that moved backwards counts as no time
    /// passed).
    pub open spec fn spec_should_clear(self, now: u64, duration_secs: u64) -> bool {
        match self.debug_message_time {
            None => false,
            Some(t) => (if now >= t {
                (now - t) as u64
            } else {
                0 as u64
            }) >= duration_secs,
        }
    }

    /// Decides, for a given clock reading, whether the debug message has
    /// outlived its duration.
    pub fn should_clear_at(&self, now: u64, duration_secs: u64) -> (r: bool)
        ensures
            r == self.spec_should_clear(now, duration_secs),
    {
        match &self.debug_message_time {
            None => false,
            Some(t) => {
                let stamped = *t;
                let elapsed = if now >= stamped {
                    now - stamped
                } else {
                    0
                };
                elapsed >= duration_secs
            },
        }
    }

    /// Reads the clock and decides from that reading whether the debug
    /// message should be cleared; with no message nothing is ever
    /// cleared.  What the clock returns is outside this library, so only
    /// that much is promised.
    pub fn should_clear_debug_message(&self, duration_secs: u64) -> (r: bool)
        ensures
            self.debug_message_time is None ==> r == false,
            r ==> self.debug_message_time is Some,
    {
        let now = storage::now_epoch_secs();
        self.should_clear_at(now, duration_secs)
    }
}

} // verus!
