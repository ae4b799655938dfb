//! The shell-side logic of the magenta-dj instrument: the DDJ-FLX4 MIDI
//! translator and LED feedback, the note-steering model, the sidecar wire
//! framing, and the on-disk media library rules.

pub mod deck;
pub mod translate;
pub mod snapshot;
pub mod notes;
pub mod steering;
pub mod service;
pub mod onset;
pub mod leds;
pub mod sidecar;
pub mod library;
pub mod songs;
pub mod style_send;
pub mod mcp;
pub mod device;
pub mod style_board;
