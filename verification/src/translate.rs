//! DDJ-FLX4 byte → intent translation.
//!
//! The byte map is a measurement of the device, stated here as a decision
//! table. The translator is pure apart from two pieces of state: the
//! per-control 14-bit MSB cache (MSB on the listed CC, LSB on CC+0x20) and the
//! per-deck SHIFT held-state (a software modifier — the firmware reports SHIFT
//! as a plain note).
//!
//! Continuous controls carry their raw 14-bit position (`0..=16383` for
//! in-range bytes); the webview's unit value is that position over
//! [`MAX_14BIT`].

use std::collections::HashMap;

use vstd::prelude::*;

use crate::deck::{DeckId, Band, deck_index, LOOP_SLOT_COUNT};

verus! {

broadcast use vstd::std_specs::hash::group_hash_axioms;

/// Per-deck Note On status bytes (deck A, deck B), shared with the cue LEDs.
pub const NOTE_ON_STATUS_A: u8 = 0x90;
pub const NOTE_ON_STATUS_B: u8 = 0x91;
/// Pad bank status bytes, shared with the LED echo (same status out).
pub const PAD_STATUS_A: u8 = 0x97;
pub const PAD_STATUS_B: u8 = 0x99;
/// Held SHIFT moves the pads onto their own status bytes (the shift pad layer).
pub const SHIFT_PAD_STATUS_A: u8 = 0x98;
pub const SHIFT_PAD_STATUS_B: u8 = 0x9a;
pub const BEAT_FX_STATUS_A: u8 = 0x94;
pub const BEAT_FX_STATUS_B: u8 = 0x95;
pub const CC_STATUS_A: u8 = 0xb0;
pub const CC_STATUS_B: u8 = 0xb1;
pub const MIXER_STATUS: u8 = 0xb6;

pub const PLAY_NOTE: u8 = 0x0b;
pub const RECORD_NOTE: u8 = 0x47;
pub const LOOP_IN_NOTE: u8 = 0x10;
pub const LOOP_OUT_NOTE: u8 = 0x11;
pub const BEAT_LOOP_NOTE: u8 = 0x4d;
pub const LOOP_HALVE_NOTE: u8 = 0x51;
pub const LOOP_DOUBLE_NOTE: u8 = 0x53;
pub const BEAT_LOOP_BEATS: u8 = 4;
pub const CHANNEL_CUE_NOTE: u8 = 0x54;
pub const TRANSPORT_CUE_NOTE: u8 = 0x0c;
pub const SHIFT_NOTE: u8 = 0x3f;
pub const PAD_COUNT: u8 = 8;
/// PAD FX1 bank base.
pub const PAD_FX_NOTE_BASE: u8 = 0x10;
/// SAMPLER bank base: the freeze-pad loop slots.
pub const LOOP_NOTE_BASE: u8 = 0x30;
/// KEYBOARD bank base: the performance-note pads.
pub const KEYBOARD_NOTE_BASE: u8 = 0x40;
/// The KEYBOARD selector — choosing that bank arms the performance surface.
pub const KEYBOARD_MODE_NOTE: u8 = 0x69;
/// SHIFT + jog arrives on its own CC.
pub const JOG_SCRUB_CC: u8 = 0x29;
pub const LSB_OFFSET: u8 = 0x20;
/// Full scale of a 14-bit control.
pub const MAX_14BIT: u16 = 16383;
/// Browse rotary: a relative encoder on the mixer status.
pub const BROWSE_CC: u8 = 0x40;
/// LOAD buttons: their own status byte, one note per deck.
pub const LOAD_STATUS: u8 = 0x96;
pub const LOAD_NOTE_A: u8 = 0x46;
pub const LOAD_NOTE_B: u8 = 0x47;
/// Rotary press.
pub const BROWSE_PRESS_NOTE: u8 = 0x41;

/// A control intent, the webview `ControlIntent` vocabulary. Continuous
/// `value`s are raw 14-bit positions (see [`MAX_14BIT`]).
#[derive(Debug, Clone, Copy, PartialEq, Eq, Structural)]
pub enum Intent {
    PlayToggle { deck: DeckId },
    Volume { deck: DeckId, value: u16 },
    Trim { deck: DeckId, value: u16 },
    Eq { deck: DeckId, band: Band, value: u16 },
    Crossfade { value: u16 },
    HotCuePad { deck: DeckId, index: u8 },
    HotCueClear { deck: DeckId, index: u8 },
    StyleSweep { deck: DeckId, value: u16 },
    RecordToggle,
    CueToggle { deck: DeckId },
    CueMix { value: u16 },
    DeckPrep { deck: DeckId },
    FxAmount { deck: DeckId, value: u16 },
    FxSelect { deck: DeckId, index: u8 },
    LoopPad { deck: DeckId, index: u8 },
    LoopClear { deck: DeckId, index: u8 },
    BrowseScroll { steps: i32 },
    BrowseLoad { deck: DeckId },
    BrowseTab,
    TrackSeek { deck: DeckId, steps: i32, shifted: bool },
    Shift { deck: DeckId, held: bool },
    TrackRate { deck: DeckId, value: u16 },
    TrackLoopIn { deck: DeckId },
    TrackLoopOut { deck: DeckId },
    TrackBeatLoop { deck: DeckId, beats: u8 },
    TrackLoopHalve { deck: DeckId },
    TrackLoopDouble { deck: DeckId },
}

/// One translated MIDI message.
#[derive(Debug, Clone, Copy, PartialEq, Eq, Structural)]
pub enum Translated {
    /// Nothing mapped (releases, unmapped banks, truncated messages).
    Nothing,
    /// A control-surface intent, forwarded to the webview.
    Intent(Intent),
    /// A KEYBOARD-bank pad edge: `down` is true on press.
    PerformancePad { deck: DeckId, pad: u8, down: bool },
    /// A pad-mode selector press; `keyboard` when the KEYBOARD mode was chosen.
    PadModeSwitch { deck: DeckId, keyboard: bool },
}

/// The abstract translator state: the MSB cache, keyed
/// `status * 256 + cc`, and SHIFT held per deck.
pub ghost struct TranslatorState {
    pub msb: Map<u16, u8>,
    pub shift_a: bool,
    pub shift_b: bool,
}

/// The translator's state before any message.
pub open spec fn initial_state() -> TranslatorState {
    TranslatorState { msb: Map::empty(), shift_a: false, shift_b: false }
}

pub open spec fn shift_of(s: TranslatorState, deck: DeckId) -> bool {
    match deck {
        DeckId::A => s.shift_a,
        DeckId::B => s.shift_b,
    }
}

pub open spec fn with_shift(s: TranslatorState, deck: DeckId, held: bool) -> TranslatorState {
    match deck {
        DeckId::A => TranslatorState { shift_a: held, ..s },
        DeckId::B => TranslatorState { shift_b: held, ..s },
    }
}

/// The MSB-cache key of a control.
pub open spec fn control_key(status: u8, cc: u8) -> u16 {
    (status as int * 256 + cc as int) as u16
}

/// The raw 14-bit value of an MSB alone.
pub open spec fn coarse_value(msb: u8) -> u16 {
    (msb as int * 128) as u16
}

/// The raw value of an MSB/LSB pair.
pub open spec fn fine_value(msb: u8, lsb: u8) -> u16 {
    ((msb as u16) << 7u16) | (lsb as u16)
}

/// Which deck a status byte belongs to, given the deck-A and deck-B statuses.
pub open spec fn deck_of_spec(a: u8, b: u8, status: u8) -> Option<DeckId> {
    if status == a {
        Some(DeckId::A)
    } else if status == b {
        Some(DeckId::B)
    } else {
        None
    }
}

/// The eight pad-mode selector notes.
pub open spec fn is_pad_mode_note(note: u8) -> bool {
    note == 0x1b || note == 0x1e || note == 0x20 || note == 0x22 || note == 0x69 || note == 0x6b
        || note == 0x6d || note == 0x6f
}

/// The relative jog-wheel CCs (side, platter, vinyl) and the SHIFT+jog CC.
pub open spec fn is_jog_cc(cc: u8) -> bool {
    cc == 0x21 || cc == 0x22 || cc == 0x23 || cc == JOG_SCRUB_CC
}

/// The CC → intent table, keyed by the MSB CC number; the SMART CFX rows read
/// the SHIFT state of their deck.
pub open spec fn cc_intent_spec(s: TranslatorState, status: u8, cc: u8, value: u16) -> Option<Intent> {
    match deck_of_spec(CC_STATUS_A, CC_STATUS_B, status) {
        Some(deck) => {
            if cc == 0x00 {
                Some(Intent::TrackRate { deck, value })
            } else if cc == 0x04 {
                Some(Intent::Trim { deck, value })
            } else if cc == 0x13 {
                Some(Intent::Volume { deck, value })
            } else if cc == 0x07 {
                Some(Intent::Eq { deck, band: Band::High, value })
            } else if cc == 0x0b {
                Some(Intent::Eq { deck, band: Band::Mid, value })
            } else if cc == 0x0f {
                Some(Intent::Eq { deck, band: Band::Low, value })
            } else {
                None
            }
        },
        None => {
            if status == MIXER_STATUS {
                if cc == 0x1f {
                    Some(Intent::Crossfade { value })
                } else if cc == 0x17 {
                    Some(
                        if s.shift_a {
                            Intent::StyleSweep { deck: DeckId::A, value }
                        } else {
                            Intent::FxAmount { deck: DeckId::A, value }
                        },
                    )
                } else if cc == 0x18 {
                    Some(
                        if s.shift_b {
                            Intent::StyleSweep { deck: DeckId::B, value }
                        } else {
                            Intent::FxAmount { deck: DeckId::B, value }
                        },
                    )
                } else if cc == 0x0c {
                    Some(Intent::CueMix { value })
                } else {
                    None
                }
            } else {
                None
            }
        },
    }
}

/// Whether a CC is a mapped 14-bit MSB control.
pub open spec fn is_msb_spec(status: u8, cc: u8) -> bool {
    cc_intent_spec(initial_state(), status, cc, 0) is Some
}

/// The button (Note On press) → intent table.
pub open spec fn button_intent_spec(s: TranslatorState, status: u8, note: u8) -> Option<Intent> {
    if let Some(deck) = deck_of_spec(NOTE_ON_STATUS_A, NOTE_ON_STATUS_B, status) {
        if note == PLAY_NOTE {
            Some(Intent::PlayToggle { deck })
        } else if note == CHANNEL_CUE_NOTE {
            Some(Intent::CueToggle { deck })
        } else if note == TRANSPORT_CUE_NOTE {
            Some(Intent::DeckPrep { deck })
        } else if note == LOOP_IN_NOTE {
            Some(Intent::TrackLoopIn { deck })
        } else if note == LOOP_OUT_NOTE {
            Some(Intent::TrackLoopOut { deck })
        } else if note == BEAT_LOOP_NOTE {
            Some(Intent::TrackBeatLoop { deck, beats: BEAT_LOOP_BEATS })
        } else if note == LOOP_HALVE_NOTE {
            Some(Intent::TrackLoopHalve { deck })
        } else if note == LOOP_DOUBLE_NOTE {
            Some(Intent::TrackLoopDouble { deck })
        } else {
            None
        }
    } else if let Some(deck) = deck_of_spec(PAD_STATUS_A, PAD_STATUS_B, status) {
        if note < PAD_COUNT {
            Some(Intent::HotCuePad { deck, index: note })
        } else if PAD_FX_NOTE_BASE <= note < PAD_FX_NOTE_BASE + PAD_COUNT {
            Some(Intent::FxSelect { deck, index: (note - PAD_FX_NOTE_BASE) as u8 })
        } else if LOOP_NOTE_BASE <= note < LOOP_NOTE_BASE + LOOP_SLOT_COUNT {
            let index = (note - LOOP_NOTE_BASE) as u8;
            Some(
                if shift_of(s, deck) {
                    Intent::LoopClear { deck, index }
                } else {
                    Intent::LoopPad { deck, index }
                },
            )
        } else {
            None
        }
    } else if let Some(deck) = deck_of_spec(SHIFT_PAD_STATUS_A, SHIFT_PAD_STATUS_B, status) {
        if note < PAD_COUNT {
            Some(Intent::HotCueClear { deck, index: note })
        } else if LOOP_NOTE_BASE <= note < LOOP_NOTE_BASE + LOOP_SLOT_COUNT {
            Some(Intent::LoopClear { deck, index: (note - LOOP_NOTE_BASE) as u8 })
        } else {
            None
        }
    } else if (status == BEAT_FX_STATUS_A || status == BEAT_FX_STATUS_B) && note == RECORD_NOTE {
        Some(Intent::RecordToggle)
    } else if status == LOAD_STATUS && note == LOAD_NOTE_A {
        Some(Intent::BrowseLoad { deck: DeckId::A })
    } else if status == LOAD_STATUS && note == LOAD_NOTE_B {
        Some(Intent::BrowseLoad { deck: DeckId::B })
    } else if status == LOAD_STATUS && note == BROWSE_PRESS_NOTE {
        Some(Intent::BrowseTab)
    } else {
        None
    }
}

/// Wrap an optional intent as a translation.
pub open spec fn as_translated(i: Option<Intent>) -> Translated {
    match i {
        Some(intent) => Translated::Intent(intent),
        None => Translated::Nothing,
    }
}

/// What one three-byte message means, and the state it leaves behind.
pub open spec fn translate_message(s: TranslatorState, status: u8, number: u8, value: u8) -> (
    Translated,
    TranslatorState,
) {
    let note_deck = deck_of_spec(NOTE_ON_STATUS_A, NOTE_ON_STATUS_B, status);
    let pad_deck = match deck_of_spec(PAD_STATUS_A, PAD_STATUS_B, status) {
        Some(d) => Some(d),
        None => deck_of_spec(SHIFT_PAD_STATUS_A, SHIFT_PAD_STATUS_B, status),
    };
    let cc_deck = deck_of_spec(CC_STATUS_A, CC_STATUS_B, status);
    if note_deck is Some && number == SHIFT_NOTE {
        let deck = note_deck->0;
        (Translated::Intent(Intent::Shift { deck, held: value > 0 }), with_shift(s, deck, value > 0))
    } else if note_deck is Some && is_pad_mode_note(number) {
        if value > 0 {
            (
                Translated::PadModeSwitch {
                    deck: note_deck->0,
                    keyboard: number == KEYBOARD_MODE_NOTE,
                },
                s,
            )
        } else {
            (Translated::Nothing, s)
        }
    } else if pad_deck is Some && KEYBOARD_NOTE_BASE <= number < KEYBOARD_NOTE_BASE + PAD_COUNT {
        (
            Translated::PerformancePad {
                deck: pad_deck->0,
                pad: (number - KEYBOARD_NOTE_BASE) as u8,
                down: value > 0,
            },
            s,
        )
    } else if status == MIXER_STATUS && number == BROWSE_CC {
        if value == 0 || value == 0x40 {
            (Translated::Nothing, s)
        } else {
            let steps: i32 = if value < 0x40 {
                value as i32
            } else {
                (value - 0x80) as i32
            };
            (Translated::Intent(Intent::BrowseScroll { steps }), s)
        }
    } else if cc_deck is Some && is_jog_cc(number) {
        if value == 0x40 {
            (Translated::Nothing, s)
        } else {
            let deck = cc_deck->0;
            (
                Translated::Intent(
                    Intent::TrackSeek {
                        deck,
                        steps: (value - 0x40) as i32,
                        shifted: number == JOG_SCRUB_CC || shift_of(s, deck),
                    },
                ),
                s,
            )
        }
    } else if is_msb_spec(status, number) {
        let s2 = TranslatorState { msb: s.msb.insert(control_key(status, number), value), ..s };
        (as_translated(cc_intent_spec(s, status, number, coarse_value(value))), s2)
    } else if number >= LSB_OFFSET && is_msb_spec(status, (number - LSB_OFFSET) as u8) {
        let msb_cc = (number - LSB_OFFSET) as u8;
        let key = control_key(status, msb_cc);
        if s.msb.contains_key(key) {
            (as_translated(cc_intent_spec(s, status, msb_cc, fine_value(s.msb[key], value))), s)
        } else {
            (Translated::Nothing, s)
        }
    } else if value == 0 {
        (Translated::Nothing, s)
    } else {
        (as_translated(button_intent_spec(s, status, number)), s)
    }
}

/// What a message (any length) means: fewer than three bytes is nothing.
pub open spec fn translate_spec(s: TranslatorState, data: Seq<u8>) -> (Translated, TranslatorState) {
    if data.len() < 3 {
        (Translated::Nothing, s)
    } else {
        translate_message(s, data[0], data[1], data[2])
    }
}

fn deck_of(a: u8, b: u8, status: u8) -> (d: Option<DeckId>)
    ensures
        d == deck_of_spec(a, b, status),
{
    if status == a {
        Some(DeckId::A)
    } else if status == b {
        Some(DeckId::B)
    } else {
        None
    }
}

/// The stateful FLX4/DDJ-400 translator (both share the Pioneer 2-deck byte
/// scheme).
pub struct Flx4Translator {
    /// Last MSB per control, keyed `(status << 8) | cc`.
    msb_by_control: HashMap<u16, u8>,
    /// SHIFT held per deck (a software modifier).
    shift_held: [bool; 2],
}

impl View for Flx4Translator {
    type V = TranslatorState;

    closed spec fn view(&self) -> TranslatorState {
        TranslatorState {
            msb: self.msb_by_control@,
            shift_a: self.shift_held@[0],
            shift_b: self.shift_held@[1],
        }
    }
}

impl Default for Flx4Translator {
    fn default() -> (t: Self)
        ensures
            t@ == initial_state(),
    {
        Flx4Translator { msb_by_control: HashMap::new(), shift_held: [false, false] }
    }
}

impl Flx4Translator {
    fn shift(&self, deck: DeckId) -> (held: bool)
        ensures
            held == shift_of(self@, deck),
    {
        match deck {
            DeckId::A => self.shift_held[0],
            DeckId::B => self.shift_held[1],
        }
    }

    /// The CC → intent builders keyed by MSB CC number, resolved per message
    /// so the SMART CFX rows read the live shift state.
    fn cc_intent(&self, status: u8, cc: u8, value: u16) -> (i: Option<Intent>)
        ensures
            i == cc_intent_spec(self@, status, cc, value),
    {
        if let Some(deck) = deck_of(CC_STATUS_A, CC_STATUS_B, status) {
            return match cc {
                0x00 => Some(Intent::TrackRate { deck, value }),
                0x04 => Some(Intent::Trim { deck, value }),
                0x13 => Some(Intent::Volume { deck, value }),
                0x07 => Some(Intent::Eq { deck, band: Band::High, value }),
                0x0b => Some(Intent::Eq { deck, band: Band::Mid, value }),
                0x0f => Some(Intent::Eq { deck, band: Band::Low, value }),
                _ => None,
            };
        }
        if status == MIXER_STATUS {
            return match cc {
                0x1f => Some(Intent::Crossfade { value }),
                0x17 => Some(
                    if self.shift_held[0] {
                        Intent::StyleSweep { deck: DeckId::A, value }
                    } else {
                        Intent::FxAmount { deck: DeckId::A, value }
                    },
                ),
                0x18 => Some(
                    if self.shift_held[1] {
                        Intent::StyleSweep { deck: DeckId::B, value }
                    } else {
                        Intent::FxAmount { deck: DeckId::B, value }
                    },
                ),
                0x0c => Some(Intent::CueMix { value }),
                _ => None,
            };
        }
        None
    }

    /// Whether a CC is a mapped 14-bit MSB (guards the MSB cache against
    /// relative encoders — the builders themselves are value-independent).
    fn is_msb(&self, status: u8, cc: u8) -> (b: bool)
        ensures
            b == is_msb_spec(status, cc),
    {
        self.cc_intent(status, cc, 0).is_some()
    }

    fn button_intent(&self, status: u8, note: u8) -> (i: Option<Intent>)
        ensures
            i == button_intent_spec(self@, status, note),
    {
        if let Some(deck) = deck_of(NOTE_ON_STATUS_A, NOTE_ON_STATUS_B, status) {
            return match note {
                PLAY_NOTE => Some(Intent::PlayToggle { deck }),
                CHANNEL_CUE_NOTE => Some(Intent::CueToggle { deck }),
                TRANSPORT_CUE_NOTE => Some(Intent::DeckPrep { deck }),
                LOOP_IN_NOTE => Some(Intent::TrackLoopIn { deck }),
                LOOP_OUT_NOTE => Some(Intent::TrackLoopOut { deck }),
                // "4 BEAT/EXIT": one byte arms and releases — the toggle lives
                // in the webview dispatch.
                BEAT_LOOP_NOTE => Some(Intent::TrackBeatLoop { deck, beats: BEAT_LOOP_BEATS }),
                LOOP_HALVE_NOTE => Some(Intent::TrackLoopHalve { deck }),
                LOOP_DOUBLE_NOTE => Some(Intent::TrackLoopDouble { deck }),
                _ => None,
            };
        }
        if let Some(deck) = deck_of(PAD_STATUS_A, PAD_STATUS_B, status) {
            if note < PAD_COUNT {
                return Some(Intent::HotCuePad { deck, index: note });
            }
            if PAD_FX_NOTE_BASE <= note && note < PAD_FX_NOTE_BASE + PAD_COUNT {
                return Some(Intent::FxSelect { deck, index: note - PAD_FX_NOTE_BASE });
            }
            if LOOP_NOTE_BASE <= note && note < LOOP_NOTE_BASE + LOOP_SLOT_COUNT {
                let index = note - LOOP_NOTE_BASE;
                return Some(
                    if self.shift(deck) {
                        Intent::LoopClear { deck, index }
                    } else {
                        Intent::LoopPad { deck, index }
                    },
                );
            }
            return None;
        }
        // SHIFT + pad arrives on the shift pad layer: HOT CUE clear and
        // SAMPLER clear are mapped; other shift-layer banks deliberately not.
        if let Some(deck) = deck_of(SHIFT_PAD_STATUS_A, SHIFT_PAD_STATUS_B, status) {
            if note < PAD_COUNT {
                return Some(Intent::HotCueClear { deck, index: note });
            }
            if LOOP_NOTE_BASE <= note && note < LOOP_NOTE_BASE + LOOP_SLOT_COUNT {
                return Some(Intent::LoopClear { deck, index: note - LOOP_NOTE_BASE });
            }
            return None;
        }
        if (status == BEAT_FX_STATUS_A || status == BEAT_FX_STATUS_B) && note == RECORD_NOTE {
            return Some(Intent::RecordToggle);
        }
        if status == LOAD_STATUS {
            if note == LOAD_NOTE_A {
                return Some(Intent::BrowseLoad { deck: DeckId::A });
            }
            if note == LOAD_NOTE_B {
                return Some(Intent::BrowseLoad { deck: DeckId::B });
            }
            if note == BROWSE_PRESS_NOTE {
                return Some(Intent::BrowseTab);
            }
        }
        None
    }

    /// Translate one MIDI message, updating the SHIFT state and MSB cache.
    pub fn translate(&mut self, data: &[u8]) -> (t: Translated)
        ensures
            (t, final(self)@) == translate_spec(old(self)@, data@),
            data@.len() >= 3 && (data@[0] == 0x90 || data@[0] == 0x91) && (data@[1] == 0x1b || data@[1] == 0x1e || data@[1] == 0x20 || data@[1] == 0x22 || data@[1] == 0x69
                || data@[1] == 0x6b || data@[1] == 0x6d || data@[1] == 0x6f) && data@[2] > 0
                ==> t == (Translated::PadModeSwitch {
                deck: if data@[0] == 0x90 {
                    DeckId::A
                } else {
                    DeckId::B
                },
                keyboard: data@[1] == 0x69,
            }),
    {
        proof {
            if data@.len() >= 3 && (data@[0] == 0x90 || data@[0] == 0x91) && (data@[1] == 0x1b || data@[1] == 0x1e || data@[1] == 0x20 || data@[1] == 0x22 || data@[1] == 0x69
                || data@[1] == 0x6b || data@[1] == 0x6d || data@[1] == 0x6f) && data@[2] > 0 {
                lemma_pad_mode_selectors(old(self)@, data@[0], data@[1], data@[2]);
            }
        }
        if data.len() < 3 {
            return Translated::Nothing;
        }
        let status = data[0];
        let number = data[1];
        let value = data[2];

        // SHIFT held-state, tracked from press AND release — before the
        // velocity-0 drop. Surfaced as an intent for cross-deck consumers.
        if let Some(deck) = deck_of(NOTE_ON_STATUS_A, NOTE_ON_STATUS_B, status) {
            if number == SHIFT_NOTE {
                let held = value > 0;
                match deck {
                    DeckId::A => self.shift_held[0] = held,
                    DeckId::B => self.shift_held[1] = held,
                }
                return Translated::Intent(Intent::Shift { deck, held });
            }
            // Pad-mode selectors emit no intent; presses cue a repaint (and
            // the KEYBOARD selector arms the performance surface).
            if number == 0x1b || number == 0x1e || number == 0x20 || number == 0x22
                || number == 0x69 || number == 0x6b || number == 0x6d || number == 0x6f {
                if value > 0 {
                    return Translated::PadModeSwitch { deck, keyboard: number == KEYBOARD_MODE_NOTE };
                }
                return Translated::Nothing;
            }
        }
        // KEYBOARD bank: both edges matter, on the plain and the shift pad
        // layer alike — extracted before the release drop.
        let pad_deck = match deck_of(PAD_STATUS_A, PAD_STATUS_B, status) {
            Some(d) => Some(d),
            None => deck_of(SHIFT_PAD_STATUS_A, SHIFT_PAD_STATUS_B, status),
        };
        if let Some(deck) = pad_deck {
            if KEYBOARD_NOTE_BASE <= number && number < KEYBOARD_NOTE_BASE + PAD_COUNT {
                return Translated::PerformancePad {
                    deck,
                    pad: number - KEYBOARD_NOTE_BASE,
                    down: value > 0,
                };
            }
        }
        // The browse rotary is relative — it must not enter the absolute
        // MSB/LSB machinery (0x02 = two CW, 0x7E = two CCW).
        if status == MIXER_STATUS && number == BROWSE_CC {
            if value == 0 || value == 0x40 {
                return Translated::Nothing;
            }
            let steps: i32 = if value < 0x40 {
                value as i32
            } else {
                value as i32 - 0x80
            };
            return Translated::Intent(Intent::BrowseScroll { steps });
        }
        // Jog wheels are relative too, 0x40-centred.
        if let Some(deck) = deck_of(CC_STATUS_A, CC_STATUS_B, status) {
            if number == 0x21 || number == 0x22 || number == 0x23 || number == JOG_SCRUB_CC {
                if value == 0x40 {
                    return Translated::Nothing;
                }
                let shifted = number == JOG_SCRUB_CC || self.shift(deck);
                return Translated::Intent(
                    Intent::TrackSeek { deck, steps: value as i32 - 0x40, shifted },
                );
            }
        }
        if self.is_msb(status, number) {
            let key: u16 = status as u16 * 256 + number as u16;
            self.msb_by_control.insert(key, value);
            let coarse: u16 = value as u16 * 128;
            return match self.cc_intent(status, number, coarse) {
                Some(intent) => Translated::Intent(intent),
                None => Translated::Nothing,
            };
        }
        if number >= LSB_OFFSET && self.is_msb(status, number - LSB_OFFSET) {
            let msb_cc = number - LSB_OFFSET;
            // An LSB with no MSB seen yet would jump the control to near
            // zero; the FLX4 always sends the pair MSB-first, so wait.
            let key: u16 = status as u16 * 256 + msb_cc as u16;
            if let Some(msb) = self.msb_by_control.get(&key) {
                let fine: u16 = ((*msb as u16) << 7u16) | (value as u16);
                return match self.cc_intent(status, msb_cc, fine) {
                    Some(intent) => Translated::Intent(intent),
                    None => Translated::Nothing,
                };
            }
            return Translated::Nothing;
        }
        // Buttons are Note On: velocity 0x7F on press, 0x00 on release.
        if value == 0 {
            return Translated::Nothing;
        }
        match self.button_intent(status, number) {
            Some(intent) => Translated::Intent(intent),
            None => Translated::Nothing,
        }
    }
}


/// A 14-bit control sent as an MSB then its LSB (CC + 0x20) reports the full
/// resolution position `(msb << 7) | lsb`, in whatever state the translator
/// was in.
pub proof fn lemma_msb_then_lsb_combine(s: TranslatorState, status: u8, cc: u8, msb: u8, lsb: u8)
    requires
        is_msb_spec(status, cc),
    ensures
        ({
            let (first, s2) = translate_message(s, status, cc, msb);
            let (second, s3) = translate_message(s2, status, (cc + LSB_OFFSET) as u8, lsb);
            &&& first == as_translated(cc_intent_spec(s, status, cc, coarse_value(msb)))
            &&& second == as_translated(cc_intent_spec(s, status, cc, fine_value(msb, lsb)))
            &&& second is Intent
            &&& s3 == s2
        }),
{
}

/// An LSB whose MSB has never been seen is ignored and changes nothing.
pub proof fn lemma_lsb_before_msb_is_ignored(s: TranslatorState, status: u8, cc: u8, lsb: u8)
    requires
        is_msb_spec(status, cc),
        !s.msb.contains_key(control_key(status, cc)),
    ensures
        translate_message(s, status, (cc + LSB_OFFSET) as u8, lsb) == (Translated::Nothing, s),
{
}

/// The MSB cache is per control: a message leaves every other control's
/// cached MSB alone, and only a mapped MSB message writes its own control.
pub proof fn lemma_msb_cache_is_per_control(s: TranslatorState, data: Seq<u8>, key: u16)
    requires
        data.len() < 3 || key != control_key(data[0], data[1]) || !is_msb_spec(data[0], data[1]),
    ensures
        translate_spec(s, data).1.msb.contains_key(key) == s.msb.contains_key(key),
        s.msb.contains_key(key) ==> translate_spec(s, data).1.msb[key] == s.msb[key],
{
}

/// The relative encoders (browse rotary, jog wheels) never enter the MSB
/// cache, and nothing but a SHIFT note moves the SHIFT state.
pub proof fn lemma_relative_controls_keep_the_state(s: TranslatorState, status: u8, number: u8, value: u8)
    requires
        (status == MIXER_STATUS && number == BROWSE_CC)
            || (deck_of_spec(CC_STATUS_A, CC_STATUS_B, status) is Some && is_jog_cc(number)),
    ensures
        translate_message(s, status, number, value).1 == s,
{
}

/// SHIFT held-state follows the deck's SHIFT note (press and release) and
/// nothing else.
pub proof fn lemma_shift_follows_only_the_shift_note(s: TranslatorState, data: Seq<u8>)
    ensures
        ({
            let s2 = translate_spec(s, data).1;
            if data.len() >= 3 && data[1] == SHIFT_NOTE && deck_of_spec(
                NOTE_ON_STATUS_A,
                NOTE_ON_STATUS_B,
                data[0],
            ) is Some {
                let deck = deck_of_spec(NOTE_ON_STATUS_A, NOTE_ON_STATUS_B, data[0])->0;
                &&& shift_of(s2, deck) == (data[2] > 0)
                &&& s2 == with_shift(s, deck, data[2] > 0)
            } else {
                s2.shift_a == s.shift_a && s2.shift_b == s.shift_b
            }
        }),
{
}

/// A KEYBOARD-bank pad edge resolves to the same pad on the plain and the
/// shift pad layer, whatever the translator state: a SHIFT grabbed mid-hold
/// cannot eat a pad release and stick a note.
pub proof fn lemma_keyboard_pads_ignore_the_layer(s: TranslatorState, t: TranslatorState, pad: u8, value: u8)
    requires
        pad < PAD_COUNT,
    ensures
        translate_message(s, PAD_STATUS_A, (KEYBOARD_NOTE_BASE + pad) as u8, value).0
            == translate_message(t, SHIFT_PAD_STATUS_A, (KEYBOARD_NOTE_BASE + pad) as u8, value).0,
        translate_message(s, PAD_STATUS_B, (KEYBOARD_NOTE_BASE + pad) as u8, value).0
            == translate_message(t, SHIFT_PAD_STATUS_B, (KEYBOARD_NOTE_BASE + pad) as u8, value).0,
        translate_message(s, PAD_STATUS_A, (KEYBOARD_NOTE_BASE + pad) as u8, value).0
            == (Translated::PerformancePad { deck: DeckId::A, pad, down: value > 0 }),
        translate_message(s, PAD_STATUS_B, (KEYBOARD_NOTE_BASE + pad) as u8, value).0
            == (Translated::PerformancePad { deck: DeckId::B, pad, down: value > 0 }),
{
}

/// A button release (velocity 0) never produces an intent, except the SHIFT
/// release the held-state needs and a KEYBOARD pad release.
pub proof fn lemma_releases_are_dropped(s: TranslatorState, status: u8, number: u8)
    requires
        deck_of_spec(NOTE_ON_STATUS_A, NOTE_ON_STATUS_B, status) is Some
            || deck_of_spec(PAD_STATUS_A, PAD_STATUS_B, status) is Some
            || deck_of_spec(SHIFT_PAD_STATUS_A, SHIFT_PAD_STATUS_B, status) is Some
            || status == LOAD_STATUS || status == BEAT_FX_STATUS_A || status == BEAT_FX_STATUS_B,
        number != SHIFT_NOTE,
        !(KEYBOARD_NOTE_BASE <= number < KEYBOARD_NOTE_BASE + PAD_COUNT),
    ensures
        translate_message(s, status, number, 0).0 == Translated::Nothing,
{
}

/// The translator state after `msgs`, one message after another.
pub open spec fn translate_all(s: TranslatorState, msgs: Seq<Seq<u8>>) -> TranslatorState
    decreases msgs.len(),
{
    if msgs.len() == 0 {
        s
    } else {
        translate_all(translate_spec(s, msgs[0]).1, msgs.drop_first())
    }
}

/// Whether `data` is `deck`'s SHIFT note (a press or a release).
pub open spec fn is_shift_message(data: Seq<u8>, deck: DeckId) -> bool {
    data.len() >= 3 && data[1] == SHIFT_NOTE && deck_of_spec(NOTE_ON_STATUS_A, NOTE_ON_STATUS_B, data[0])
        == Some(deck)
}

/// A deck's Note On status, its plain pad-layer status, and its SMART CFX
/// knob's CC on the mixer status.
pub open spec fn deck_statuses(deck: DeckId) -> (u8, u8, u8) {
    match deck {
        DeckId::A => (NOTE_ON_STATUS_A, PAD_STATUS_A, 0x17u8),
        DeckId::B => (NOTE_ON_STATUS_B, PAD_STATUS_B, 0x18u8),
    }
}

proof fn lemma_shift_survives(s: TranslatorState, deck: DeckId, msgs: Seq<Seq<u8>>)
    requires
        forall|k: int| 0 <= k < msgs.len() ==> !is_shift_message(#[trigger] msgs[k], deck),
    ensures
        shift_of(translate_all(s, msgs), deck) == shift_of(s, deck),
    decreases msgs.len(),
{
    if msgs.len() > 0 {
        lemma_shift_follows_only_the_shift_note(s, msgs[0]);
        assert(!is_shift_message(msgs[0], deck));
        let rest = msgs.drop_first();
        assert forall|k: int| 0 <= k < rest.len() implies !is_shift_message(#[trigger] rest[k], deck) by {
            assert(rest[k] == msgs[k + 1]);
        }
        lemma_shift_survives(translate_spec(s, msgs[0]).1, deck, rest);
    }
}

/// A deck's SHIFT press (or release) governs that deck's SMART CFX knob
/// and loop pads until the deck's next SHIFT message, whatever other
/// messages come between: held, the knob sweeps the style and a loop pad
/// clears its slot; released, the knob sets the FX amount and a loop pad
/// plays its slot.
pub proof fn lemma_shift_governs_until_the_next_shift(
    s: TranslatorState,
    deck: DeckId,
    press: u8,
    between: Seq<Seq<u8>>,
    knob: u8,
    slot: u8,
    velocity: u8,
)
    requires
        forall|k: int| 0 <= k < between.len() ==> !is_shift_message(#[trigger] between[k], deck),
        slot < LOOP_SLOT_COUNT,
        velocity > 0,
    ensures
        ({
            let (note_on, pad_status, knob_cc) = deck_statuses(deck);
            let shift = seq![note_on, SHIFT_NOTE, press];
            let s1 = translate_all(s, seq![shift] + between);
            &&& translate_spec(s, shift).0 == Translated::Intent(Intent::Shift { deck, held: press > 0 })
            &&& shift_of(s1, deck) == (press > 0)
            &&& translate_message(s1, MIXER_STATUS, knob_cc, knob).0 == Translated::Intent(
                if press > 0 {
                    Intent::StyleSweep { deck, value: coarse_value(knob) }
                } else {
                    Intent::FxAmount { deck, value: coarse_value(knob) }
                },
            )
            &&& translate_message(s1, pad_status, (LOOP_NOTE_BASE + slot) as u8, velocity).0
                == Translated::Intent(
                if press > 0 {
                    Intent::LoopClear { deck, index: slot }
                } else {
                    Intent::LoopPad { deck, index: slot }
                },
            )
        }),
{
    let (note_on, pad_status, knob_cc) = deck_statuses(deck);
    let shift = seq![note_on, SHIFT_NOTE, press];
    let msgs = seq![shift] + between;
    let s0 = translate_spec(s, shift).1;
    assert(msgs[0] == shift);
    assert(msgs.drop_first() =~= between);
    assert(translate_all(s, msgs) == translate_all(s0, between));
    lemma_shift_follows_only_the_shift_note(s, shift);
    lemma_shift_survives(s0, deck, between);
    let s1 = translate_all(s, msgs);
    assert(is_msb_spec(MIXER_STATUS, knob_cc));
}

/// A press of any pad-mode selector switches that deck's pad mode, in any
/// translator state: the KEYBOARD selector (0x69) arms the performance
/// surface, and every other selector (SAMPLER 0x22 among them) picks a
/// non-keyboard bank. The release of a selector is nothing, and neither
/// changes the translator's state.
pub proof fn lemma_pad_mode_selectors(s: TranslatorState, status: u8, note: u8, value: u8)
    requires
        status == 0x90 || status == 0x91,
        note == 0x1b || note == 0x1e || note == 0x20 || note == 0x22
            || note == 0x69 || note == 0x6b || note == 0x6d || note == 0x6f,
    ensures
        value > 0 ==> translate_spec(s, seq![status, note, value]).0 == (Translated::PadModeSwitch {
            deck: if status == 0x90 {
                DeckId::A
            } else {
                DeckId::B
            },
            keyboard: note == 0x69,
        }),
        value == 0 ==> translate_spec(s, seq![status, note, value]).0 == Translated::Nothing,
        translate_spec(s, seq![status, note, value]).1 == s,
{
}

} // verus!
