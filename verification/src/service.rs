//! The note-steering service's decisions: the single sender for both decks'
//! note and drum conditioning.
//!
//! Every entry point (the KEYBOARD pad bank, external keyboards, pad-mode
//! selectors, full-state writers, drum authoring, stream discontinuities and
//! the onset scheduler's due deadlines) is a transition of [`NoteSteering`]
//! that answers with the [`SteeringAction`]s to perform, in order: control
//! messages for the deck's sidecar, store mirrors, and onset sends to
//! schedule onto the deck's next beat. Messages carry full state, never
//! deltas.

use vstd::prelude::*;

use crate::deck::DECK_COUNT;
use crate::notes::{build_multihot, multihot_slot, NOTE_SLOTS};
use crate::snapshot::{NoteModeSnap, NoteSteeringSnap, PerformanceSnap, default_performance};
use crate::steering::{
    DeckState, PAD_COUNT, occurrences, same_holds, pad_pressed, pad_released, key_pressed, key_released,
    key_hold_of,
};

verus! {

/// Chunk size of an armed deck: ~200 ms chunks for playable latency.
pub const ARMED_CHUNK_FRAMES: u32 = 5;

/// Chunk size of a disarmed deck: the 1 s default.
pub const DEFAULT_CHUNK_FRAMES: u32 = 25;

/// One thing the service asks its host to do.
#[derive(Debug)]
pub enum SteeringAction {
    /// Send `set_chunk_frames` to the deck's sidecar.
    SetChunkFrames { deck: usize, frames: u32 },
    /// Send `set_notes` with the full multihot (`None`: fully masked).
    SetNotes { deck: usize, notes: Option<Vec<i32>> },
    /// Send `set_drums` with the deck's drum mode and its current strength.
    SetDrums { deck: usize, mode: Option<bool> },
    /// Mirror the deck's performance config into the store.
    MirrorPerformance { deck: usize, perf: PerformanceSnap },
    /// Mirror the deck's note steering into the store (`None`: nothing held).
    MirrorNotes { deck: usize, steering: Option<NoteSteeringSnap> },
    /// Mirror the deck's drum mode into the store.
    MirrorDrums { deck: usize, mode: Option<bool> },
    /// Call [`NoteSteering::fire_scheduled`] with `deck` and `stamp` on the
    /// deck's next beat.
    Schedule { deck: usize, stamp: u64 },
}

/// The wire multihot for held `pitches`: `None` (fully masked) for an empty
/// hold, else one state per MIDI pitch.
pub open spec fn notes_wire(pitches: Seq<u8>, mode: NoteModeSnap, previous: Seq<u8>) -> Option<Seq<i32>> {
    if pitches.len() == 0 {
        None
    } else {
        Some(Seq::new(NOTE_SLOTS as nat, |slot: int| multihot_slot(pitches, mode, previous, slot)))
    }
}

/// A multihot as plain values.
pub open spec fn wire_view(notes: Option<Vec<i32>>) -> Option<Seq<i32>> {
    match notes {
        Some(v) => Some(v@),
        None => None,
    }
}

/// The store mirror of held `pitches`: `None` when nothing is held.
pub open spec fn mirrors(notes: Option<NoteSteeringSnap>, pitches: Seq<u8>, mode: NoteModeSnap) -> bool {
    if pitches.len() == 0 {
        notes is None
    } else {
        notes matches Some(n) && n.pitches@ == pitches && n.mode == mode
    }
}

/// `acts[at]` and `acts[at + 1]` send the deck's full held state (onset
/// baseline `previous`) and mirror it, and `f` is the state after the send:
/// the sent pitches became the baseline and no send is pending.
pub open spec fn sends(deck: usize, acts: Seq<SteeringAction>, at: int, f: DeckState, previous: Seq<u8>) -> bool {
    let pitches = f.held_list();
    let mode = f.performance().mode;
    &&& 0 <= at
    &&& at + 2 <= acts.len()
    &&& acts[at] matches SteeringAction::SetNotes { deck: d, notes } && d == deck && wire_view(notes)
        == notes_wire(pitches, mode, previous)
    &&& acts[at + 1] matches SteeringAction::MirrorNotes { deck: d, steering } && d == deck && mirrors(
        steering,
        pitches,
        mode,
    )
    &&& f.sent_pitches() == pitches
    &&& !f.is_pending()
}

/// Whether a change goes onto the next beat: a fresh press in onset mode
/// while the deck's beat is known.
pub open spec fn on_grid(f: DeckState, fresh: bool, beat_known: bool) -> bool {
    f.performance().mode == NoteModeSnap::Onset && fresh && beat_known
}

/// How many actions routing a change emits.
pub open spec fn dispatch_len(s: DeckState, f: DeckState, fresh: bool, beat_known: bool) -> int {
    if on_grid(f, fresh, beat_known) {
        1
    } else if s.is_pending() {
        0
    } else {
        2
    }
}

/// The schedule stamp after routing a change.
pub open spec fn dispatch_stamp(f: DeckState, fresh: bool, beat_known: bool, stamp: u64) -> u64 {
    if on_grid(f, fresh, beat_known) {
        stamp.wrapping_add(1)
    } else {
        stamp
    }
}

/// A change was routed (`s` the deck before the change, `f` after, the
/// actions from `at`): a fresh onset press on a known beat is scheduled
/// under a new stamp; otherwise a pending scheduled send absorbs it, or the
/// full state is sent now.
pub open spec fn dispatched(
    deck: usize,
    s: DeckState,
    f: DeckState,
    fresh: bool,
    beat_known: bool,
    acts: Seq<SteeringAction>,
    at: int,
    stamp: u64,
) -> bool {
    if on_grid(f, fresh, beat_known) {
        &&& acts[at] == SteeringAction::Schedule { deck, stamp: stamp.wrapping_add(1) }
        &&& f.is_pending()
        &&& f.generation_spec() == stamp.wrapping_add(1)
        &&& f.sent_pitches() == s.sent_pitches()
    } else if s.is_pending() {
        &&& f.is_pending()
        &&& f.generation_spec() == s.generation_spec()
        &&& f.sent_pitches() == s.sent_pitches()
    } else {
        &&& sends(deck, acts, at, f, s.sent_pitches())
        &&& f.generation_spec() == s.generation_spec()
    }
}

/// How many actions an arm change emits.
pub open spec fn arm_len(armed: bool) -> int {
    if armed {
        1
    } else {
        3
    }
}

/// An arm change took effect (actions from `at`): the chunk knob follows;
/// a disarm releases every hold and sends the now-empty state.
pub open spec fn arm_applied(
    deck: usize,
    s: DeckState,
    f: DeckState,
    armed: bool,
    acts: Seq<SteeringAction>,
    at: int,
) -> bool {
    &&& acts[at] == SteeringAction::SetChunkFrames {
        deck,
        frames: if armed {
            ARMED_CHUNK_FRAMES
        } else {
            DEFAULT_CHUNK_FRAMES
        },
    }
    &&& if armed {
        &&& same_holds(s, f)
        &&& f.sent_pitches() == s.sent_pitches()
        &&& f.is_pending() == s.is_pending()
        &&& f.generation_spec() == s.generation_spec()
    } else {
        &&& f.nothing_held()
        &&& f.generation_spec() == s.generation_spec().wrapping_add(1)
        &&& sends(deck, acts, at + 1, f, Seq::empty())
    }
}

/// An external keyboard edge reached deck `deck` (`s` before, `f` after,
/// its actions from `at`): an unarmed deck ignores it; an armed deck takes
/// the press or release and routes the change.
pub open spec fn key_routed(
    deck: usize,
    s: DeckState,
    f: DeckState,
    raw: u8,
    down: bool,
    beat_known: bool,
    acts: Seq<SteeringAction>,
    at: int,
    stamp: u64,
) -> bool {
    if !s.performance().armed {
        f == s
    } else {
        &&& f.performance() == s.performance()
        &&& f.drum_mode() == s.drum_mode()
        &&& if down {
            key_pressed(s, f, raw)
        } else {
            key_released(s, f, raw)
        }
        &&& dispatched(deck, s, f, down, beat_known, acts, at, stamp)
    }
}

/// How many actions an external keyboard edge emits for one deck.
pub open spec fn key_len(s: DeckState, f: DeckState, down: bool, beat_known: bool) -> int {
    if !s.performance().armed {
        0
    } else {
        dispatch_len(s, f, down, beat_known)
    }
}

/// The schedule stamp after an external keyboard edge reached one deck.
pub open spec fn key_stamp(s: DeckState, f: DeckState, down: bool, beat_known: bool, stamp: u64) -> u64 {
    if !s.performance().armed {
        stamp
    } else {
        dispatch_stamp(f, down, beat_known, stamp)
    }
}

/// `s`'s performance config with the arm switch set to `armed`.
pub open spec fn with_armed(perf: PerformanceSnap, armed: bool) -> PerformanceSnap {
    PerformanceSnap { armed, ..perf }
}

/// The two decks' steering state and the global schedule stamp that pairs
/// with each deck's generation, so a due onset send can tell it is stale.
pub struct NoteSteering {
    decks: Vec<DeckState>,
    stamp: u64,
}

impl NoteSteering {
    /// Deck `d`'s steering state.
    pub closed spec fn deck(&self, d: int) -> DeckState {
        self.decks@[d]
    }

    /// The global schedule stamp.
    pub closed spec fn stamp_spec(&self) -> u64 {
        self.stamp
    }

    pub closed spec fn wf(&self) -> bool {
        &&& self.decks@.len() == DECK_COUNT
        &&& forall|d: int| 0 <= d < DECK_COUNT ==> (#[trigger] self.decks@[d]).wf()
    }

    /// Every deck other than `deck` is unchanged from `other`.
    pub open spec fn others_kept(&self, other: &Self, deck: int) -> bool {
        forall|d: int| 0 <= d < DECK_COUNT && d != deck ==> #[trigger] self.deck(d) == other.deck(d)
    }

    /// Both decks start disarmed, in C major chord-follow, holding nothing.
    pub fn new() -> (s: Self)
        ensures
            s.wf(),
            s.stamp_spec() == 0,
            forall|d: int|
                0 <= d < DECK_COUNT ==> {
                    &&& (#[trigger] s.deck(d)).performance() == default_performance()
                    &&& s.deck(d).drum_mode() is None
                    &&& s.deck(d).nothing_held()
                    &&& s.deck(d).sent_pitches().len() == 0
                    &&& !s.deck(d).is_pending()
                    &&& s.deck(d).generation_spec() == 0
                },
    {
        let mut decks: Vec<DeckState> = Vec::new();
        let mut i: usize = 0;
        while i < DECK_COUNT
            invariant
                0 <= i <= DECK_COUNT,
                decks@.len() == i,
                forall|d: int|
                    0 <= d < i ==> {
                        &&& (#[trigger] decks@[d]).wf()
                        &&& decks@[d].performance() == default_performance()
                        &&& decks@[d].drum_mode() is None
                        &&& decks@[d].nothing_held()
                        &&& decks@[d].sent_pitches().len() == 0
                        &&& !decks@[d].is_pending()
                        &&& decks@[d].generation_spec() == 0
                    },
            decreases DECK_COUNT - i,
        {
            decks.push(DeckState::new());
            i = i + 1;
        }
        NoteSteering { decks, stamp: 0 }
    }

    /// Deck `deck`'s performance config.
    pub fn performance(&self, deck: usize) -> (perf: PerformanceSnap)
        requires
            self.wf(),
            deck < DECK_COUNT,
        ensures
            perf == self.deck(deck as int).performance(),
    {
        self.decks[deck].performance_config()
    }

    /// Deck `deck`'s authored drum mode.
    pub fn drums(&self, deck: usize) -> (mode: Option<bool>)
        requires
            self.wf(),
            deck < DECK_COUNT,
        ensures
            mode == self.deck(deck as int).drum_mode(),
    {
        self.decks[deck].drums()
    }

    /// Deck `deck`'s held pitches, ascending.
    pub fn held(&self, deck: usize) -> (v: Vec<u8>)
        requires
            self.wf(),
            deck < DECK_COUNT,
        ensures
            v@ == self.deck(deck as int).held_list(),
    {
        self.decks[deck].held_pitches()
    }

    /// Send the deck's full held state and mirror it; the sent pitches
    /// become the onset baseline.
    fn send_now(&mut self, deck: usize, acts: &mut Vec<SteeringAction>)
        requires
            old(self).wf(),
            deck < DECK_COUNT,
        ensures
            final(self).wf(),
            final(self).others_kept(old(self), deck as int),
            final(self).stamp_spec() == old(self).stamp_spec(),
            final(acts)@.len() == old(acts)@.len() + 2,
            forall|i: int| 0 <= i < old(acts)@.len() ==> #[trigger] final(acts)@[i] == old(acts)@[i],
            sends(
                deck,
                final(acts)@,
                old(acts)@.len() as int,
                final(self).deck(deck as int),
                old(self).deck(deck as int).sent_pitches(),
            ),
            same_holds(old(self).deck(deck as int), final(self).deck(deck as int)),
            final(self).deck(deck as int).performance() == old(self).deck(deck as int).performance(),
            final(self).deck(deck as int).drum_mode() == old(self).deck(deck as int).drum_mode(),
            final(self).deck(deck as int).generation_spec() == old(self).deck(deck as int).generation_spec(),
    {
        let ghost s = self.decks@[deck as int];
        let pitches = self.decks[deck].held_pitches();
        let mode = self.decks[deck].performance_config().mode;
        let multihot = build_multihot(pitches.as_slice(), mode, self.decks[deck].sent());
        proof {
            if multihot is Some {
                assert(multihot->0@ =~= Seq::new(
                    NOTE_SLOTS as nat,
                    |slot: int| multihot_slot(pitches@, mode, s.sent_pitches(), slot),
                ));
            }
        }
        let mirrored = if pitches.len() == 0 {
            None
        } else {
            let copy = pitches.clone();
            assert(copy@ =~= pitches@);
            Some(NoteSteeringSnap { pitches: copy, mode })
        };
        self.decks[deck].record_sent(pitches);
        let ghost before = acts@;
        acts.push(SteeringAction::SetNotes { deck, notes: multihot });
        acts.push(SteeringAction::MirrorNotes { deck, steering: mirrored });
        proof {
            let f = self.decks@[deck as int];
            assert(f.held_list() == s.held_list()) by {
                assert forall|n: nat| n <= 256 implies #[trigger] f.held_below(n) == s.held_below(n) by {
                    lemma_held_below_same(s, f, n);
                }
            }
        }
    }
    /// Route a change on `deck`: a fresh press in onset mode on a known beat
    /// is scheduled under a new stamp; otherwise a pending scheduled send
    /// absorbs it, or the full state is sent now.
    fn dispatch(&mut self, deck: usize, fresh: bool, beat_known: bool, acts: &mut Vec<SteeringAction>)
        requires
            old(self).wf(),
            deck < DECK_COUNT,
        ensures
            final(self).wf(),
            final(self).others_kept(old(self), deck as int),
            final(self).stamp_spec() == dispatch_stamp(
                old(self).deck(deck as int),
                fresh,
                beat_known,
                old(self).stamp_spec(),
            ),
            final(acts)@.len() == old(acts)@.len() + dispatch_len(
                old(self).deck(deck as int),
                old(self).deck(deck as int),
                fresh,
                beat_known,
            ),
            forall|i: int| 0 <= i < old(acts)@.len() ==> #[trigger] final(acts)@[i] == old(acts)@[i],
            dispatched(
                deck,
                old(self).deck(deck as int),
                final(self).deck(deck as int),
                fresh,
                beat_known,
                final(acts)@,
                old(acts)@.len() as int,
                old(self).stamp_spec(),
            ),
            same_holds(old(self).deck(deck as int), final(self).deck(deck as int)),
            final(self).deck(deck as int).performance() == old(self).deck(deck as int).performance(),
            final(self).deck(deck as int).drum_mode() == old(self).deck(deck as int).drum_mode(),
    {
        let mode = self.decks[deck].performance_config().mode;
        let onset = match mode {
            NoteModeSnap::Onset => true,
            NoteModeSnap::Chord => false,
        };
        if onset && fresh && beat_known {
            let stamp = self.stamp.wrapping_add(1);
            self.stamp = stamp;
            self.decks[deck].schedule_send(stamp);
            acts.push(SteeringAction::Schedule { deck, stamp });
        } else if self.decks[deck].pending() {
        } else {
            self.send_now(deck, acts);
        }
    }

    /// The armed-transition side effects: the chunk knob, and on disarm a
    /// clean release of every hold.
    fn apply_armed(&mut self, deck: usize, armed: bool, acts: &mut Vec<SteeringAction>)
        requires
            old(self).wf(),
            deck < DECK_COUNT,
        ensures
            final(self).wf(),
            final(self).others_kept(old(self), deck as int),
            final(self).stamp_spec() == old(self).stamp_spec(),
            final(acts)@.len() == old(acts)@.len() + arm_len(armed),
            forall|i: int| 0 <= i < old(acts)@.len() ==> #[trigger] final(acts)@[i] == old(acts)@[i],
            arm_applied(
                deck,
                old(self).deck(deck as int),
                final(self).deck(deck as int),
                armed,
                final(acts)@,
                old(acts)@.len() as int,
            ),
            final(self).deck(deck as int).performance() == old(self).deck(deck as int).performance(),
            final(self).deck(deck as int).drum_mode() == old(self).deck(deck as int).drum_mode(),
    {
        let frames = if armed {
            ARMED_CHUNK_FRAMES
        } else {
            DEFAULT_CHUNK_FRAMES
        };
        acts.push(SteeringAction::SetChunkFrames { deck, frames });
        if !armed {
            self.decks[deck].clear_holds();
            let ghost cleared = self.decks@[deck as int];
            assert(cleared.sent_pitches() =~= Seq::<u8>::empty());
            self.send_now(deck, acts);
            proof {
                let f = self.decks@[deck as int];
                assert(f.nothing_held()) by {
                    assert forall|i: int| 0 <= i < PAD_COUNT implies #[trigger] f.pad_hold(i).len() == 0 by {
                        assert(cleared.pad_hold(i).len() == 0);
                    }
                    assert forall|p: u8| #[trigger] f.count(p) == 0 by {
                        assert(cleared.count(p) == 0);
                    }
                }
            }
        }
    }

    /// Set deck `deck`'s arm switch, with its side effects and the mirror.
    fn set_armed(&mut self, deck: usize, armed: bool, acts: &mut Vec<SteeringAction>)
        requires
            old(self).wf(),
            deck < DECK_COUNT,
        ensures
            final(self).wf(),
            final(self).others_kept(old(self), deck as int),
            final(self).stamp_spec() == old(self).stamp_spec(),
            final(acts)@.len() == old(acts)@.len() + arm_len(armed) + 1,
            forall|i: int| 0 <= i < old(acts)@.len() ==> #[trigger] final(acts)@[i] == old(acts)@[i],
            final(self).deck(deck as int).performance() == with_armed(
                old(self).deck(deck as int).performance(),
                armed,
            ),
            final(self).deck(deck as int).drum_mode() == old(self).deck(deck as int).drum_mode(),
            arm_applied(
                deck,
                old(self).deck(deck as int),
                final(self).deck(deck as int),
                armed,
                final(acts)@,
                old(acts)@.len() as int,
            ),
            final(acts)@[old(acts)@.len() + arm_len(armed)] == (SteeringAction::MirrorPerformance {
                deck,
                perf: final(self).deck(deck as int).performance(),
            }),
    {
        let ghost s = self.decks@[deck as int];
        let mut perf = self.decks[deck].performance_config();
        perf.armed = armed;
        self.decks[deck].set_performance(perf);
        let ghost armed_state = self.decks@[deck as int];
        self.apply_armed(deck, armed, acts);
        acts.push(SteeringAction::MirrorPerformance { deck, perf });
        proof {
            let f = self.decks@[deck as int];
            if armed {
                assert(same_holds(s, f)) by {
                    assert forall|p: u8| #[trigger] f.count(p) == s.count(p) by {
                        assert(armed_state.count(p) == s.count(p));
                    }
                    assert forall|i: int| 0 <= i < PAD_COUNT implies #[trigger] f.pad_hold(i) == s.pad_hold(i) by {
                        assert(armed_state.pad_hold(i) == s.pad_hold(i));
                    }
                }
            }
        }
    }

    /// A KEYBOARD-bank pad edge from the controller (`beat_known`: the
    /// deck's gated beat clock is running). A press on an unarmed deck arms
    /// it first: pressing the bank is the intent to perform.
    pub fn pad_event(&mut self, deck: usize, pad: usize, down: bool, beat_known: bool) -> (acts: Vec<
        SteeringAction,
    >)
        requires
            old(self).wf(),
        ensures
            final(self).wf(),
            deck >= DECK_COUNT ==> acts@.len() == 0 && *final(self) == *old(self),
            deck < DECK_COUNT ==> ({
                let s = old(self).deck(deck as int);
                let f = final(self).deck(deck as int);
                let arm = down && !s.performance().armed;
                let k: int = if arm {
                    2
                } else {
                    0
                };
                &&& final(self).others_kept(old(self), deck as int)
                &&& f.performance() == with_armed(s.performance(), s.performance().armed || down)
                &&& f.drum_mode() == s.drum_mode()
                &&& if down {
                    pad_pressed(s, f, pad)
                } else {
                    pad_released(s, f, pad)
                }
                &&& arm ==> acts@[0] == (SteeringAction::SetChunkFrames { deck, frames: ARMED_CHUNK_FRAMES })
                &&& arm ==> acts@[1] == (SteeringAction::MirrorPerformance { deck, perf: f.performance() })
                &&& acts@.len() == k + dispatch_len(s, f, down, beat_known)
                &&& dispatched(deck, s, f, down, beat_known, acts@, k, old(self).stamp_spec())
                &&& final(self).stamp_spec() == dispatch_stamp(f, down, beat_known, old(self).stamp_spec())
            }),
            deck < DECK_COUNT && old(self).deck(deck as int).performance().mode == NoteModeSnap::Chord ==> forall|i: int|
                0 <= i < acts@.len() ==> !(#[trigger] acts@[i] is Schedule),
    {
        let mut acts: Vec<SteeringAction> = Vec::new();
        if deck >= DECK_COUNT {
            return acts;
        }
        let ghost s = self.decks@[deck as int];
        if down && !self.decks[deck].performance_config().armed {
            self.set_armed(deck, true, &mut acts);
        }
        let ghost a = self.decks@[deck as int];
        let ghost after_arm = *self;
        if down {
            self.decks[deck].pad_down(pad);
        } else {
            self.decks[deck].pad_up(pad);
        }
        let ghost h = self.decks@[deck as int];
        let ghost after_hold = *self;
        self.dispatch(deck, down, beat_known, &mut acts);
        proof {
            let f = self.decks@[deck as int];
            assert(same_holds(s, a));
            if down {
                lemma_pad_pressed_carries(s, a, h, f, pad);
            } else {
                lemma_pad_released_carries(s, a, h, f, pad);
            }
            assert forall|d: int| 0 <= d < DECK_COUNT && d != deck implies #[trigger] self.deck(d) == old(self).deck(d) by {
                assert(after_arm.deck(d) == old(self).deck(d));
                assert(after_hold.deck(d) == after_arm.deck(d));
            }
            if s.performance().mode == NoteModeSnap::Chord {
                let k: int = if down && !s.performance().armed { 2 } else { 0 };
                lemma_chord_mode_sends_at_once(deck, s, f, down, beat_known, acts@, k, old(self).stamp_spec());
            }
        }
        acts
    }

    /// Route an external keyboard edge into deck `deck` if it is armed.
    fn keyboard_deck(&mut self, deck: usize, raw: u8, down: bool, beat_known: bool, acts: &mut Vec<SteeringAction>)
        requires
            old(self).wf(),
            deck < DECK_COUNT,
        ensures
            final(self).wf(),
            final(self).others_kept(old(self), deck as int),
            forall|i: int| 0 <= i < old(acts)@.len() ==> #[trigger] final(acts)@[i] == old(acts)@[i],
            key_routed(
                deck,
                old(self).deck(deck as int),
                final(self).deck(deck as int),
                raw,
                down,
                beat_known,
                final(acts)@,
                old(acts)@.len() as int,
                old(self).stamp_spec(),
            ),
            final(acts)@.len() == old(acts)@.len() + key_len(
                old(self).deck(deck as int),
                final(self).deck(deck as int),
                down,
                beat_known,
            ),
            final(self).stamp_spec() == key_stamp(
                old(self).deck(deck as int),
                final(self).deck(deck as int),
                down,
                beat_known,
                old(self).stamp_spec(),
            ),
    {
        if !self.decks[deck].performance_config().armed {
            return;
        }
        let ghost s = self.decks@[deck as int];
        if down {
            self.decks[deck].key_down(raw);
        } else {
            self.decks[deck].key_up(raw);
        }
        let ghost h = self.decks@[deck as int];
        self.dispatch(deck, down, beat_known, acts);
        proof {
            let f = self.decks@[deck as int];
            if down {
                lemma_key_pressed_carries(s, h, f, raw);
            } else {
                lemma_key_released_carries(s, h, f, raw);
            }
        }
    }

    /// An external keyboard note edge: it steers every armed deck, deck A
    /// first (arming is the per-deck routing switch for a shared keyboard).
    pub fn keyboard_event(&mut self, raw: u8, down: bool, beat_known: [bool; 2]) -> (acts: Vec<SteeringAction>)
        requires
            old(self).wf(),
        ensures
            final(self).wf(),
            ({
                let s0 = old(self).deck(0);
                let f0 = final(self).deck(0);
                let s1 = old(self).deck(1);
                let f1 = final(self).deck(1);
                let n0 = key_len(s0, f0, down, beat_known[0]);
                let mid = key_stamp(s0, f0, down, beat_known[0], old(self).stamp_spec());
                &&& key_routed(0, s0, f0, raw, down, beat_known[0], acts@, 0, old(self).stamp_spec())
                &&& key_routed(1, s1, f1, raw, down, beat_known[1], acts@, n0, mid)
                &&& acts@.len() == n0 + key_len(s1, f1, down, beat_known[1])
                &&& final(self).stamp_spec() == key_stamp(s1, f1, down, beat_known[1], mid)
            }),
    {
        let mut acts: Vec<SteeringAction> = Vec::new();
        self.keyboard_deck(0, raw, down, beat_known[0], &mut acts);
        let ghost after0 = *self;
        let ghost acts0 = acts@;
        self.keyboard_deck(1, raw, down, beat_known[1], &mut acts);
        proof {
            assert(self.deck(0) == after0.deck(0));
            lemma_key_routed_prefix(0, old(self).deck(0), self.deck(0), raw, down, beat_known[0], acts0, acts@, 0, old(self).stamp_spec());
        }
        acts
    }

    /// A pad-mode selector press: choosing the KEYBOARD bank arms the deck,
    /// choosing any other bank disarms it.
    pub fn pad_mode_selected(&mut self, deck: usize, keyboard: bool) -> (acts: Vec<SteeringAction>)
        requires
            old(self).wf(),
        ensures
            final(self).wf(),
            deck >= DECK_COUNT || old(self).deck(deck as int).performance().armed == keyboard ==> acts@.len() == 0
                && *final(self) == *old(self),
            deck < DECK_COUNT && old(self).deck(deck as int).performance().armed != keyboard ==> ({
                let s = old(self).deck(deck as int);
                let f = final(self).deck(deck as int);
                &&& final(self).others_kept(old(self), deck as int)
                &&& final(self).stamp_spec() == old(self).stamp_spec()
                &&& f.performance() == with_armed(s.performance(), keyboard)
                &&& f.drum_mode() == s.drum_mode()
                &&& acts@.len() == arm_len(keyboard) + 1
                &&& arm_applied(deck, s, f, keyboard, acts@, 0)
                &&& acts@[arm_len(keyboard)] == (SteeringAction::MirrorPerformance { deck, perf: f.performance() })
            }),
    {
        let mut acts: Vec<SteeringAction> = Vec::new();
        if deck >= DECK_COUNT {
            return acts;
        }
        if self.decks[deck].performance_config().armed != keyboard {
            self.set_armed(deck, keyboard, &mut acts);
        }
        acts
    }

    /// The UI/IPC performance-config write (arm, key, scale, mode); a key
    /// outside the twelve pitch classes is ignored.
    pub fn set_performance(&mut self, deck: usize, perf: PerformanceSnap) -> (acts: Vec<SteeringAction>)
        requires
            old(self).wf(),
        ensures
            final(self).wf(),
            deck >= DECK_COUNT || perf.key >= 12 ==> acts@.len() == 0 && *final(self) == *old(self),
            deck < DECK_COUNT && perf.key < 12 ==> ({
                let s = old(self).deck(deck as int);
                let f = final(self).deck(deck as int);
                let change = s.performance().armed != perf.armed;
                let k: int = if change {
                    arm_len(perf.armed)
                } else {
                    0
                };
                &&& final(self).others_kept(old(self), deck as int)
                &&& final(self).stamp_spec() == old(self).stamp_spec()
                &&& f.performance() == perf
                &&& f.drum_mode() == s.drum_mode()
                &&& acts@.len() == k + 1
                &&& change ==> arm_applied(deck, s, f, perf.armed, acts@, 0)
                &&& !change ==> same_holds(s, f) && f.sent_pitches() == s.sent_pitches() && f.is_pending()
                    == s.is_pending() && f.generation_spec() == s.generation_spec()
                &&& acts@[k] == (SteeringAction::MirrorPerformance { deck, perf })
            }),
    {
        let mut acts: Vec<SteeringAction> = Vec::new();
        if deck >= DECK_COUNT || perf.key >= 12 {
            return acts;
        }
        let ghost s = self.decks@[deck as int];
        let was = self.decks[deck].performance_config().armed;
        self.decks[deck].set_performance(perf);
        let ghost p = self.decks@[deck as int];
        if was != perf.armed {
            self.apply_armed(deck, perf.armed, &mut acts);
        }
        acts.push(SteeringAction::MirrorPerformance { deck, perf });
        proof {
            let f = self.decks@[deck as int];
            if was != perf.armed && perf.armed {
                assert(same_holds(s, f)) by {
                    assert forall|q: u8| #[trigger] f.count(q) == s.count(q) by {
                        assert(p.count(q) == s.count(q));
                    }
                    assert forall|i: int| 0 <= i < PAD_COUNT implies #[trigger] f.pad_hold(i) == s.pad_hold(i) by {
                        assert(p.pad_hold(i) == s.pad_hold(i));
                    }
                }
            }
        }
        acts
    }

    /// A full-state write (MCP or UI): replace the whole hold with `pitches`
    /// and the note mode with `mode`, then send.
    pub fn apply_external(&mut self, deck: usize, pitches: &[u8], mode: NoteModeSnap) -> (acts: Vec<
        SteeringAction,
    >)
        requires
            old(self).wf(),
            pitches@.len() + 300 <= u32::MAX,
        ensures
            final(self).wf(),
            deck >= DECK_COUNT ==> acts@.len() == 0 && *final(self) == *old(self),
            deck < DECK_COUNT ==> ({
                let s = old(self).deck(deck as int);
                let f = final(self).deck(deck as int);
                &&& final(self).others_kept(old(self), deck as int)
                &&& final(self).stamp_spec() == old(self).stamp_spec()
                &&& f.performance() == (PerformanceSnap { mode, ..s.performance() })
                &&& f.drum_mode() == s.drum_mode()
                &&& forall|p: u8| #[trigger] f.count(p) == occurrences(pitches@, p)
                &&& forall|i: int| 0 <= i < PAD_COUNT ==> #[trigger] f.pad_hold(i).len() == 0
                &&& f.key_holds() == Map::<u8, u8>::empty()
                &&& f.generation_spec() == s.generation_spec().wrapping_add(1)
                &&& acts@.len() == 3
                &&& acts@[0] == (SteeringAction::MirrorPerformance { deck, perf: f.performance() })
                &&& sends(deck, acts@, 1, f, Seq::empty())
            }),
    {
        let mut acts: Vec<SteeringAction> = Vec::new();
        if deck >= DECK_COUNT {
            return acts;
        }
        let ghost s = self.decks@[deck as int];
        self.decks[deck].replace_holds(pitches);
        let ghost r = self.decks@[deck as int];
        let mut perf = self.decks[deck].performance_config();
        perf.mode = mode;
        self.decks[deck].set_performance(perf);
        let ghost m = self.decks@[deck as int];
        acts.push(SteeringAction::MirrorPerformance { deck, perf });
        assert(m.sent_pitches() =~= Seq::<u8>::empty());
        self.send_now(deck, &mut acts);
        proof {
            let f = self.decks@[deck as int];
            assert forall|p: u8| #[trigger] f.count(p) == occurrences(pitches@, p) by {
                assert(m.count(p) == r.count(p));
            }
            assert forall|i: int| 0 <= i < PAD_COUNT implies #[trigger] f.pad_hold(i).len() == 0 by {
                assert(m.pad_hold(i) == r.pad_hold(i));
            }
        }
        acts
    }

    /// Record deck `deck`'s drum-conditioning mode, send the full drum
    /// state and mirror it.
    pub fn set_drums(&mut self, deck: usize, mode: Option<bool>) -> (acts: Vec<SteeringAction>)
        requires
            old(self).wf(),
        ensures
            final(self).wf(),
            deck >= DECK_COUNT ==> acts@.len() == 0 && *final(self) == *old(self),
            deck < DECK_COUNT ==> ({
                let s = old(self).deck(deck as int);
                let f = final(self).deck(deck as int);
                &&& final(self).others_kept(old(self), deck as int)
                &&& final(self).stamp_spec() == old(self).stamp_spec()
                &&& f.drum_mode() == mode
                &&& f.performance() == s.performance()
                &&& same_holds(s, f)
                &&& f.sent_pitches() == s.sent_pitches()
                &&& f.is_pending() == s.is_pending()
                &&& f.generation_spec() == s.generation_spec()
                &&& acts@ == seq![
                    SteeringAction::SetDrums { deck, mode },
                    SteeringAction::MirrorDrums { deck, mode },
                ]
            }),
    {
        let mut acts: Vec<SteeringAction> = Vec::new();
        if deck >= DECK_COUNT {
            return acts;
        }
        self.decks[deck].set_drum_mode(mode);
        acts.push(SteeringAction::SetDrums { deck, mode });
        acts.push(SteeringAction::MirrorDrums { deck, mode });
        acts
    }

    /// Re-assert deck `deck`'s authored drum conditioning over a fresh
    /// stream (the play edge).
    pub fn reassert_drums(&self, deck: usize) -> (acts: Vec<SteeringAction>)
        requires
            self.wf(),
        ensures
            deck >= DECK_COUNT ==> acts@.len() == 0,
            deck < DECK_COUNT ==> acts@ == seq![
                SteeringAction::SetDrums { deck, mode: self.deck(deck as int).drum_mode() },
            ],
    {
        let mut acts: Vec<SteeringAction> = Vec::new();
        if deck >= DECK_COUNT {
            return acts;
        }
        acts.push(SteeringAction::SetDrums { deck, mode: self.decks[deck].drums() });
        acts
    }

    /// A stream discontinuity on deck `deck` (play, stop, worker death):
    /// the worker resets its own conditioning, so every hold is dropped and
    /// any scheduled send goes stale; the config survives.
    pub fn reset(&mut self, deck: usize)
        requires
            old(self).wf(),
        ensures
            final(self).wf(),
            deck >= DECK_COUNT ==> *final(self) == *old(self),
            deck < DECK_COUNT ==> ({
                let s = old(self).deck(deck as int);
                let f = final(self).deck(deck as int);
                &&& final(self).others_kept(old(self), deck as int)
                &&& final(self).stamp_spec() == old(self).stamp_spec().wrapping_add(1)
                &&& f.nothing_held()
                &&& f.performance() == s.performance()
                &&& f.drum_mode() == s.drum_mode()
                &&& f.sent_pitches().len() == 0
                &&& !f.is_pending()
                &&& f.generation_spec() == s.generation_spec().wrapping_add(1)
            }),
    {
        if deck >= DECK_COUNT {
            return;
        }
        self.decks[deck].clear_holds();
        self.stamp = self.stamp.wrapping_add(1);
    }

    /// A due deadline from the onset scheduler: send only if `stamp` still
    /// owns the deck (a reset or a newer press invalidated it otherwise).
    pub fn fire_scheduled(&mut self, deck: usize, stamp: u64) -> (acts: Vec<SteeringAction>)
        requires
            old(self).wf(),
        ensures
            final(self).wf(),
            deck >= DECK_COUNT || !(old(self).deck(deck as int).generation_spec() == stamp && old(
                self,
            ).deck(deck as int).is_pending()) ==> acts@.len() == 0 && *final(self) == *old(self),
            deck < DECK_COUNT && old(self).deck(deck as int).generation_spec() == stamp && old(self).deck(
                deck as int,
            ).is_pending() ==> ({
                let s = old(self).deck(deck as int);
                let f = final(self).deck(deck as int);
                &&& final(self).others_kept(old(self), deck as int)
                &&& final(self).stamp_spec() == old(self).stamp_spec()
                &&& f.performance() == s.performance()
                &&& f.drum_mode() == s.drum_mode()
                &&& same_holds(s, f)
                &&& f.generation_spec() == s.generation_spec()
                &&& acts@.len() == 2
                &&& sends(deck, acts@, 0, f, s.sent_pitches())
            }),
    {
        let mut acts: Vec<SteeringAction> = Vec::new();
        if deck >= DECK_COUNT {
            return acts;
        }
        if self.decks[deck].generation() == stamp && self.decks[deck].pending() {
            self.send_now(deck, &mut acts);
        }
        acts
    }

}

proof fn lemma_pad_pressed_carries(s: DeckState, a: DeckState, h: DeckState, f: DeckState, pad: usize)
    requires
        same_holds(s, a),
        a.performance().key == s.performance().key,
        a.performance().scale == s.performance().scale,
        pad_pressed(a, h, pad),
        same_holds(h, f),
    ensures
        pad_pressed(s, f, pad),
{
    if pad < PAD_COUNT {
        assert(s.pad_hold(pad as int) == a.pad_hold(pad as int));
        assert(f.pad_hold(pad as int) == h.pad_hold(pad as int));
    }
    assert forall|i: int| 0 <= i < PAD_COUNT && i != pad implies #[trigger] f.pad_hold(i) == s.pad_hold(i) by {
        assert(a.pad_hold(i) == s.pad_hold(i));
        assert(h.pad_hold(i) == a.pad_hold(i));
    }
    assert forall|p: u8| #[trigger] f.count(p) == h.count(p) && a.count(p) == s.count(p) by {}
}

proof fn lemma_pad_released_carries(s: DeckState, a: DeckState, h: DeckState, f: DeckState, pad: usize)
    requires
        same_holds(s, a),
        pad_released(a, h, pad),
        same_holds(h, f),
    ensures
        pad_released(s, f, pad),
{
    if pad < PAD_COUNT {
        assert(s.pad_hold(pad as int) == a.pad_hold(pad as int));
        assert(f.pad_hold(pad as int) == h.pad_hold(pad as int));
    }
    assert forall|i: int| 0 <= i < PAD_COUNT && i != pad implies #[trigger] f.pad_hold(i) == s.pad_hold(i) by {
        assert(a.pad_hold(i) == s.pad_hold(i));
        assert(h.pad_hold(i) == a.pad_hold(i));
    }
    assert forall|p: u8| #[trigger] f.count(p) == h.count(p) && a.count(p) == s.count(p) by {}
}

proof fn lemma_key_pressed_carries(s: DeckState, h: DeckState, f: DeckState, raw: u8)
    requires
        key_pressed(s, h, raw),
        same_holds(h, f),
    ensures
        key_pressed(s, f, raw),
{
    assert forall|i: int| 0 <= i < PAD_COUNT implies #[trigger] f.pad_hold(i) == s.pad_hold(i) by {
        assert(h.pad_hold(i) == s.pad_hold(i));
    }
    assert forall|p: u8| #[trigger] f.count(p) + key_hold_of(s, raw, p) == s.count(p) + key_hold_of(f, raw, p) by {
        assert(f.count(p) == h.count(p));
        assert(key_hold_of(f, raw, p) == key_hold_of(h, raw, p));
    }
}

proof fn lemma_key_released_carries(s: DeckState, h: DeckState, f: DeckState, raw: u8)
    requires
        key_released(s, h, raw),
        same_holds(h, f),
    ensures
        key_released(s, f, raw),
{
    assert forall|i: int| 0 <= i < PAD_COUNT implies #[trigger] f.pad_hold(i) == s.pad_hold(i) by {
        assert(h.pad_hold(i) == s.pad_hold(i));
    }
    assert forall|p: u8| #[trigger] f.count(p) + key_hold_of(s, raw, p) == s.count(p) by {
        assert(f.count(p) == h.count(p));
    }
}

/// Routing facts about a prefix of the actions survive appending more.
proof fn lemma_key_routed_prefix(
    deck: usize,
    s: DeckState,
    f: DeckState,
    raw: u8,
    down: bool,
    beat_known: bool,
    acts0: Seq<SteeringAction>,
    acts: Seq<SteeringAction>,
    at: int,
    stamp: u64,
)
    requires
        key_routed(deck, s, f, raw, down, beat_known, acts0, at, stamp),
        0 <= at,
        acts0.len() == at + key_len(s, f, down, beat_known),
        acts0.len() <= acts.len(),
        forall|i: int| 0 <= i < acts0.len() ==> #[trigger] acts[i] == acts0[i],
    ensures
        key_routed(deck, s, f, raw, down, beat_known, acts, at, stamp),
{
    if s.performance().armed {
        if on_grid(f, down, beat_known) {
            assert(acts[at] == acts0[at]);
        } else if !s.is_pending() {
            assert(acts[at] == acts0[at]);
            assert(acts[at + 1] == acts0[at + 1]);
        }
    }
}

/// Decks with the same counts list the same held pitches.
proof fn lemma_held_below_same(s: DeckState, f: DeckState, n: nat)
    requires
        forall|p: u8| #[trigger] f.count(p) == s.count(p),
    ensures
        f.held_below(n) == s.held_below(n),
    decreases n,
{
    if n > 0 {
        lemma_held_below_same(s, f, (n - 1) as nat);
    }
}

/// A change on a deck in chord mode is never held back to a beat: whatever
/// the beat clock says and whether it is a press or a release, no schedule
/// is emitted; unless an earlier onset send is still pending (which then
/// carries the change), the deck's full held state is sent at once: the
/// multihot first, then the store mirror.
pub proof fn lemma_chord_mode_sends_at_once(
    deck: usize,
    s: DeckState,
    f: DeckState,
    fresh: bool,
    beat_known: bool,
    acts: Seq<SteeringAction>,
    at: int,
    stamp: u64,
)
    requires
        f.performance().mode == NoteModeSnap::Chord,
        0 <= at,
        acts.len() == at + dispatch_len(s, f, fresh, beat_known),
        dispatched(deck, s, f, fresh, beat_known, acts, at, stamp),
    ensures
        forall|i: int| at <= i < acts.len() ==> !(#[trigger] acts[i] is Schedule),
        s.is_pending() ==> acts.len() == at && f.is_pending(),
        !s.is_pending() ==> {
            &&& acts.len() == at + 2
            &&& acts[at] matches SteeringAction::SetNotes { deck: d, notes } && d == deck && wire_view(notes)
                == notes_wire(f.held_list(), NoteModeSnap::Chord, s.sent_pitches())
            &&& acts[at + 1] matches SteeringAction::MirrorNotes { deck: d, steering } && d == deck && mirrors(
                steering,
                f.held_list(),
                NoteModeSnap::Chord,
            )
            &&& !f.is_pending()
        },
{
}

/// A fresh press in onset mode on a known beat is scheduled, not sent: the
/// only action is the schedule of the deck under the next stamp.
pub proof fn lemma_onset_press_waits_for_the_beat(
    deck: usize,
    s: DeckState,
    f: DeckState,
    acts: Seq<SteeringAction>,
    at: int,
    stamp: u64,
)
    requires
        f.performance().mode == NoteModeSnap::Onset,
        0 <= at,
        acts.len() == at + dispatch_len(s, f, true, true),
        dispatched(deck, s, f, true, true, acts, at, stamp),
    ensures
        acts.len() == at + 1,
        acts[at] == (SteeringAction::Schedule { deck, stamp: stamp.wrapping_add(1) }),
        f.is_pending(),
{
}

} // verus!
