//! The daemon's configuration model: an ordered list of faders plus the
//! named categories of apps that category faders drive. It is stored as TOML
//! at `$XDG_CONFIG_HOME/fadewire/config.toml`; reading and writing the file
//! is the application's job.

use vstd::prelude::*;

use crate::calibration::{Calibration, Taper};

verus! {

/// Top-level config: an ordered list of faders and the app categories.
#[derive(Clone, Debug, PartialEq)]
pub struct Config {
    pub fader: Vec<FaderConfig>,
    pub category: Vec<CategoryDef>,
}

impl Default for Config {
    fn default() -> (r: Self)
        ensures
            r.fader@.len() == 0,
            r.category@.len() == 0,
    {
        Config { fader: Vec::new(), category: Vec::new() }
    }
}

/// A named group of apps (matched on their binary) that move together.
#[derive(Clone, Debug, PartialEq)]
pub struct CategoryDef {
    pub name: String,
    pub members: Vec<String>,
}

/// One fader: where its level comes from and what it drives.
#[derive(Clone, Debug, PartialEq)]
pub struct FaderConfig {
    pub label: String,
    pub kind: FaderKind,
    /// HID report axis (0..=7) for a physical fader; ignored for virtual.
    pub axis: i32,
    /// Maximum volume % this fader reaches at the top of its throw.
    pub max_percent: i32,
    pub calibration: Calibration,
    pub target: Target,
}

impl Default for FaderConfig {
    fn default() -> (r: Self)
        ensures
            r.label@ == Seq::<char>::empty(),
            r.kind == FaderKind::Physical,
            r.axis == 0,
            r.max_percent == 100,
            r.calibration == (Calibration { min: 4, max: 3215, taper: Taper::Linear, mute_raw: 0 }),
            r.target == Target::Unassigned,
    {
        FaderConfig {
            label: String::new(),
            kind: FaderKind::Physical,
            axis: 0,
            max_percent: 100,
            calibration: Calibration::default(),
            target: Target::default(),
        }
    }
}

/// Whether the fader is driven by hardware or by the UI/hotkeys/CLI.
#[derive(Clone, Copy, Debug, PartialEq, Eq, Structural)]
pub enum FaderKind {
    Physical,
    Virtual,
}

impl Default for FaderKind {
    fn default() -> (r: Self)
        ensures
            r == FaderKind::Physical,
    {
        FaderKind::Physical
    }
}

/// What a fader controls.
#[derive(Clone, Debug, PartialEq)]
pub enum Target {
    /// An output device (PipeWire sink), matched by a substring of its
    /// description or node name.
    Sink { name_match: String },
    /// One application's streams, matched on `application.process.binary`
    /// (or the Flatpak application id).
    App { binary: String },
    /// A named group of apps that move together.
    Category { name: String },
    /// Every stream not assigned to a category and not targeted directly by
    /// another fader ("Everything Else").
    Unassigned,
}

impl Default for Target {
    fn default() -> (r: Self)
        ensures
            r == Target::Unassigned,
    {
        Target::Unassigned
    }
}

} // verus!
