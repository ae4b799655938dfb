//! The plain (float-free) parts of the interface-state snapshot that the
//! MIDI, LED and note-steering logic read: the FX kinds, the performance
//! surface config, and the note-steering and recorder states.

use vstd::prelude::*;

verus! {

/// A Color FX kind as it appears in the snapshot, in the webview's
/// `FX_KINDS` order.
#[derive(Debug, Clone, Copy, PartialEq, Eq, Structural)]
pub enum FxKindSnap {
    Filter,
    DubEcho,
    Space,
    Crush,
    Noise,
    Sweep,
}

/// The note mode a steering surface authors in: chord-follow maps held
/// pitches to "model decides the articulation"; onset marks fresh presses so
/// the performer owns the attack timing.
#[derive(Debug, Clone, Copy, PartialEq, Eq, Structural)]
pub enum NoteModeSnap {
    Chord,
    Onset,
}

/// The key/scale a performance surface snaps to. Chromatic is the no-snap
/// escape hatch.
#[derive(Debug, Clone, Copy, PartialEq, Eq, Structural)]
pub enum ScaleSnap {
    Major,
    Minor,
    PentatonicMinor,
    Chromatic,
}

/// A deck's performance-surface config: whether the surface is armed, the
/// key root (pitch class, 0 = C … 11 = B) and scale the notes snap to, and
/// the note mode.
#[derive(Debug, Clone, Copy, PartialEq, Eq, Structural)]
pub struct PerformanceSnap {
    pub armed: bool,
    pub key: u8,
    pub scale: ScaleSnap,
    pub mode: NoteModeSnap,
}

/// The default performance config: disarmed, C major, chord-follow.
pub open spec fn default_performance() -> PerformanceSnap {
    PerformanceSnap { armed: false, key: 0, scale: ScaleSnap::Major, mode: NoteModeSnap::Chord }
}

impl Default for PerformanceSnap {
    fn default() -> (p: Self)
        ensures
            p == default_performance(),
    {
        PerformanceSnap { armed: false, key: 0, scale: ScaleSnap::Major, mode: NoteModeSnap::Chord }
    }
}

/// A realtime deck's note steering: the held MIDI pitches and the note mode.
#[derive(Debug, Clone)]
pub struct NoteSteeringSnap {
    /// Held MIDI pitches.
    pub pitches: Vec<u8>,
    pub mode: NoteModeSnap,
}

/// The shell recorder's state: whether a take is streaming to disk and where.
#[derive(Debug, Clone)]
pub struct RecordingSnap {
    pub active: bool,
    pub path: Option<String>,
}

impl Default for RecordingSnap {
    fn default() -> (r: Self)
        ensures
            !r.active,
            r.path is None,
    {
        RecordingSnap { active: false, path: None }
    }
}

} // verus!
