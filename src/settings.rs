//! Start-up settings and the start screen's state.

use vstd::prelude::*;

verus! {

/// Whether this process relays its own audio or listens to a host.
#[derive(Copy, Clone, Debug, PartialEq, Eq, Structural)]
pub enum Mode {
    Host,
    Client,
}

/// Persisted settings: fade durations in milliseconds and the start-up mode.
#[derive(Copy, Clone, Debug, PartialEq, Eq, Structural)]
pub struct Settings {
    pub fade_in_duration: u64,
    pub fade_out_duration: u64,
    pub mode: Mode,
}

impl Default for Settings {
    /// One-second fades, starting as host.
    fn default() -> (r: Self)
        ensures
            r == (Settings { fade_in_duration: 1000, fade_out_duration: 1000, mode: Mode::Host }),
    {
        Settings { fade_in_duration: 1000, fade_out_duration: 1000, mode: Mode::Host }
    }
}

/// The start screen, where the user picks host or client.
pub struct Entry {}

impl Entry {
    /// A fresh start screen.
    pub fn new() -> (r: Self)
        ensures
            r == (Entry {}),
    {
        Entry {}
    }
}

} // verus!
