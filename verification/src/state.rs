//! Runtime state the daemon persists across restarts — virtual faders'
//! levels and mute state. Kept in a *separate* file
//! (`$XDG_STATE_HOME/fadewire/state.toml`) so the daemon never rewrites the
//! user's hand-edited config.

use vstd::prelude::*;

verus! {

/// Persisted runtime state.
#[derive(Clone, Debug, PartialEq)]
pub struct State {
    pub fader: Vec<VirtualLevel>,
}

impl Default for State {
    fn default() -> (r: Self)
        ensures
            r.fader@.len() == 0,
    {
        State { fader: Vec::new() }
    }
}

/// One virtual fader's saved position, keyed by its config label.
#[derive(Clone, Debug, PartialEq)]
pub struct VirtualLevel {
    pub label: String,
    /// Current level (0..=100); 0 while muted.
    pub level: i32,
    pub muted: bool,
    /// The level the mute toggle restores.
    pub pre_mute: i32,
}

impl Default for VirtualLevel {
    fn default() -> (r: Self)
        ensures
            r.label@ == Seq::<char>::empty(),
            r.level == 0,
            !r.muted,
            r.pre_mute == 0,
    {
        VirtualLevel { label: String::new(), level: 0, muted: false, pre_mute: 0 }
    }
}

} // verus!
