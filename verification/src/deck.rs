//! Deck identities shared by the MIDI translator, the LED painter and the
//! note-steering service.

use vstd::prelude::*;

verus! {

/// The number of decks the instrument runs.
pub const DECK_COUNT: usize = 2;

/// The loop-slot count the SAMPLER pad bank drives.
pub const LOOP_SLOT_COUNT: u8 = 4;

/// A deck as the webview intent vocabulary names it (`'a' | 'b'`).
#[derive(Debug, Clone, Copy, PartialEq, Eq, Structural)]
pub enum DeckId {
    A,
    B,
}

/// The engine/store deck index a deck id addresses.
pub open spec fn deck_index(deck: DeckId) -> nat {
    match deck {
        DeckId::A => 0,
        DeckId::B => 1,
    }
}

impl DeckId {
    /// The engine/store deck index this id addresses.
    pub fn index(self) -> (i: usize)
        ensures
            i == deck_index(self),
            i < DECK_COUNT,
    {
        match self {
            DeckId::A => 0,
            DeckId::B => 1,
        }
    }
}

/// An EQ band, matching the webview's `EqBand` strings.
#[derive(Debug, Clone, Copy, PartialEq, Eq, Structural)]
pub enum Band {
    Low,
    Mid,
    High,
}

} // verus!
