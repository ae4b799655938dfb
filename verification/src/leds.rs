//! Controller LED feedback for the DDJ-FLX4.
//!
//! Pioneer buttons and pads light by echoing their own status and note
//! back, velocity 0x7F on and 0x00 off; pad velocity doubles as brightness
//! (bright 0x7F, dim 0x20). Every group is recomputed from the deck's state
//! so the painter can diff frames and send only the groups that changed.
//! The HOT CUE bank shows filled cues on a playback deck and style targets
//! (selection mask bright/dim) on a realtime deck; PAD FX lights the active
//! effect; SAMPLER lights filled loop slots; KEYBOARD shows the armed bank
//! and the fully held triads; channel CUE mirrors the headphone cue;
//! transport CUE lights while primed off air.

use vstd::prelude::*;

use crate::deck::DECK_COUNT;
use crate::notes::{pad_pitches, pad_pitches_spec, contains_pitch, lemma_small_pad_fits};
use crate::snapshot::{FxKindSnap, NoteSteeringSnap, PerformanceSnap};
use crate::translate::{
    CHANNEL_CUE_NOTE, KEYBOARD_NOTE_BASE, LOOP_NOTE_BASE, NOTE_ON_STATUS_A, NOTE_ON_STATUS_B,
    PAD_FX_NOTE_BASE, PAD_STATUS_A, PAD_STATUS_B, TRANSPORT_CUE_NOTE,
};

verus! {

/// A lit pad at full brightness.
pub const PAD_LED_BRIGHT: u8 = 0x7f;

/// A lit pad at the dim level.
pub const PAD_LED_DIM: u8 = 0x20;

/// Pads per bank.
pub const BANK_PADS: usize = 8;

/// The pad-mode selector buttons (HOT CUE, PAD FX, BEAT JUMP, SAMPLER).
pub const SELECTOR_BUTTONS: usize = 4;

/// The selector note the device powers on with: HOT CUE.
pub const DEFAULT_BANK: u8 = 0x1b;

/// The groups of one deck's LED frame.
pub const DECK_GROUPS: usize = 7;

/// What the LED painter reads of one deck's interface state.
#[derive(Debug, Clone)]
pub struct DeckLedView {
    /// A track is loaded (a playback deck); otherwise a realtime deck.
    pub has_track: bool,
    /// Which hot cues are set, in pad order.
    pub cues_filled: Vec<bool>,
    /// How many style targets the deck has.
    pub style_target_count: usize,
    /// The style selection mask (empty: no mask).
    pub style_selected: Vec<bool>,
    /// The active Color FX.
    pub fx_kind: Option<FxKindSnap>,
    /// The performance-surface config.
    pub performance: PerformanceSnap,
    /// The note steering the deck holds.
    pub notes: Option<NoteSteeringSnap>,
    /// Headphone cue.
    pub cue: bool,
    /// Primed off air.
    pub primed: bool,
}

/// One LED message.
pub open spec fn led(status: u8, note: u8, velocity: u8) -> Seq<u8> {
    seq![status, note, velocity]
}

/// The echo velocity of a button: on or off.
pub open spec fn lit(on: bool) -> u8 {
    if on {
        0x7f
    } else {
        0x00
    }
}

/// Whether flag `i` is set (flags past the end are clear).
pub open spec fn flag(flags: Seq<bool>, i: int) -> bool {
    0 <= i < flags.len() && flags[i]
}

/// The status byte of a deck's pad banks.
pub open spec fn pad_status_spec(deck: int) -> u8 {
    if deck == 0 {
        PAD_STATUS_A
    } else {
        PAD_STATUS_B
    }
}

/// The status byte of a deck's buttons.
pub open spec fn note_on_status_spec(deck: int) -> u8 {
    if deck == 0 {
        NOTE_ON_STATUS_A
    } else {
        NOTE_ON_STATUS_B
    }
}

/// Messages as plain byte sequences.
pub open spec fn msgs_view(msgs: Seq<[u8; 3]>) -> Seq<Seq<u8>> {
    msgs.map_values(|m: [u8; 3]| m@)
}

/// A style-target pad's velocity: past the target count dark; with no mask
/// (or selected) bright; unselected dim.
pub open spec fn style_velocity(pad: int, count: nat, selected: Seq<bool>) -> u8 {
    if pad >= count {
        0x00
    } else if selected.len() == 0 || flag(selected, pad) {
        PAD_LED_BRIGHT
    } else {
        PAD_LED_DIM
    }
}

pub open spec fn style_target_pads_spec(deck: int, count: nat, selected: Seq<bool>) -> Seq<Seq<u8>> {
    Seq::new(BANK_PADS as nat, |pad: int| led(pad_status_spec(deck), pad as u8, style_velocity(pad, count, selected)))
}

pub open spec fn fx_pads_spec(deck: int, active: Option<usize>) -> Seq<Seq<u8>> {
    Seq::new(
        BANK_PADS as nat,
        |pad: int| led(pad_status_spec(deck), (PAD_FX_NOTE_BASE + pad) as u8, lit(active == Some(pad as usize))),
    )
}

pub open spec fn loop_pads_spec(deck: int, filled: Seq<bool>) -> Seq<Seq<u8>> {
    Seq::new(
        BANK_PADS as nat,
        |pad: int| led(pad_status_spec(deck), (LOOP_NOTE_BASE + pad) as u8, lit(flag(filled, pad))),
    )
}

pub open spec fn cue_pads_spec(deck: int, filled: Seq<bool>) -> Seq<Seq<u8>> {
    Seq::new(BANK_PADS as nat, |pad: int| led(pad_status_spec(deck), pad as u8, lit(flag(filled, pad))))
}

/// A KEYBOARD pad's velocity: dark when disarmed; bright when its whole
/// (non-empty) triad is held; dim otherwise.
pub open spec fn keyboard_velocity(perf: PerformanceSnap, held: Seq<u8>, pad: int) -> u8 {
    let triad = pad_pitches_spec(perf.key, perf.scale, pad as nat);
    if !perf.armed {
        0x00
    } else if triad.len() > 0 && forall|k: int| 0 <= k < triad.len() ==> held.contains(#[trigger] triad[k]) {
        PAD_LED_BRIGHT
    } else {
        PAD_LED_DIM
    }
}

/// The pitches a deck's note steering holds.
pub open spec fn held_of(notes: Option<NoteSteeringSnap>) -> Seq<u8> {
    match notes {
        Some(n) => n.pitches@,
        None => Seq::empty(),
    }
}

pub open spec fn keyboard_pads_spec(deck: int, perf: PerformanceSnap, held: Seq<u8>) -> Seq<Seq<u8>> {
    Seq::new(
        BANK_PADS as nat,
        |pad: int| led(pad_status_spec(deck), (KEYBOARD_NOTE_BASE + pad) as u8, keyboard_velocity(perf, held, pad)),
    )
}

/// The plain-layer selector note of button `i`.
pub open spec fn plain_selector(i: int) -> u8 {
    if i == 0 {
        0x1b
    } else if i == 1 {
        0x1e
    } else if i == 2 {
        0x20
    } else {
        0x22
    }
}

/// The shifted-layer selector note of button `i`.
pub open spec fn shifted_selector(i: int) -> u8 {
    if i == 0 {
        0x69
    } else if i == 1 {
        0x6b
    } else if i == 2 {
        0x6d
    } else {
        0x6f
    }
}

/// One message per physical selector button: the active bank's own note
/// (plain or shifted) lit when it owns the button, the plain note otherwise.
pub open spec fn mode_selectors_spec(deck: int, active: u8) -> Seq<Seq<u8>> {
    Seq::new(
        SELECTOR_BUTTONS as nat,
        |i: int|
            if active == shifted_selector(i) {
                led(note_on_status_spec(deck), shifted_selector(i), 0x7f)
            } else {
                led(note_on_status_spec(deck), plain_selector(i), lit(active == plain_selector(i)))
            },
    )
}

pub open spec fn channel_cue_spec(deck: int, on: bool) -> Seq<Seq<u8>> {
    seq![led(note_on_status_spec(deck), CHANNEL_CUE_NOTE, lit(on))]
}

pub open spec fn transport_cue_spec(deck: int, on: bool) -> Seq<Seq<u8>> {
    seq![led(note_on_status_spec(deck), TRANSPORT_CUE_NOTE, lit(on))]
}

/// The PAD FX pad of an effect: the webview's FX order.
pub open spec fn fx_index_spec(kind: FxKindSnap) -> usize {
    match kind {
        FxKindSnap::Filter => 0,
        FxKindSnap::DubEcho => 1,
        FxKindSnap::Space => 2,
        FxKindSnap::Crush => 3,
        FxKindSnap::Noise => 4,
        FxKindSnap::Sweep => 5,
    }
}

/// The active effect's pad.
pub open spec fn fx_pad_of(kind: Option<FxKindSnap>) -> Option<usize> {
    match kind {
        Some(k) => Some(fx_index_spec(k)),
        None => None,
    }
}

/// Group `g` of one deck's LED frame: HOT CUE bank, PAD FX, SAMPLER,
/// KEYBOARD, channel CUE, transport CUE, pad-mode selectors.
pub open spec fn deck_group(deck: int, snap: DeckLedView, loop_filled: Seq<bool>, bank: u8, g: int) -> Seq<Seq<u8>> {
    if g == 0 {
        if snap.has_track {
            cue_pads_spec(deck, snap.cues_filled@)
        } else {
            style_target_pads_spec(deck, snap.style_target_count as nat, snap.style_selected@)
        }
    } else if g == 1 {
        fx_pads_spec(deck, fx_pad_of(snap.fx_kind))
    } else if g == 2 {
        loop_pads_spec(deck, loop_filled)
    } else if g == 3 {
        keyboard_pads_spec(deck, snap.performance, held_of(snap.notes))
    } else if g == 4 {
        channel_cue_spec(deck, snap.cue)
    } else if g == 5 {
        transport_cue_spec(deck, snap.primed)
    } else {
        mode_selectors_spec(deck, bank)
    }
}

/// The status byte of a deck's pad banks.
pub fn pad_status(deck: usize) -> (s: u8)
    requires
        deck < DECK_COUNT,
    ensures
        s == pad_status_spec(deck as int),
{
    if deck == 0 {
        PAD_STATUS_A
    } else {
        PAD_STATUS_B
    }
}

/// The status byte of a deck's buttons.
pub fn note_on_status(deck: usize) -> (s: u8)
    requires
        deck < DECK_COUNT,
    ensures
        s == note_on_status_spec(deck as int),
{
    if deck == 0 {
        NOTE_ON_STATUS_A
    } else {
        NOTE_ON_STATUS_B
    }
}

/// A button echo: its own status and note, lit or dark.
pub fn echo(status: u8, note: u8, on: bool) -> (m: [u8; 3])
    ensures
        m@ == led(status, note, lit(on)),
{
    let m = [status, note, if on {
        0x7f
    } else {
        0x00
    }];
    assert(m@ =~= led(status, note, lit(on)));
    m
}

/// Whether flag `i` is set (flags past the end are clear).
fn flag_at(flags: &[bool], i: usize) -> (b: bool)
    ensures
        b == flag(flags@, i as int),
{
    i < flags.len() && flags[i]
}

/// Light pads 1..count for a deck's style targets, the rest dark. With a
/// selection mask, selected pads burn bright and the rest sit dim; with no
/// mask every target pad is lit full.
pub fn style_target_pads(deck: usize, count: usize, selected: &[bool]) -> (msgs: Vec<[u8; 3]>)
    requires
        deck < DECK_COUNT,
    ensures
        msgs_view(msgs@) == style_target_pads_spec(deck as int, count as nat, selected@),
{
    let status = pad_status(deck);
    let mut msgs: Vec<[u8; 3]> = Vec::new();
    let mut pad: usize = 0;
    while pad < BANK_PADS
        invariant
            0 <= pad <= BANK_PADS,
            status == pad_status_spec(deck as int),
            msgs@.len() == pad,
            forall|j: int| 0 <= j < pad ==> (#[trigger] msgs@[j])@ == led(status, j as u8, style_velocity(j, count as nat, selected@)),
        decreases BANK_PADS - pad,
    {
        let velocity = if pad >= count {
            0x00
        } else if selected.len() == 0 || flag_at(selected, pad) {
            PAD_LED_BRIGHT
        } else {
            PAD_LED_DIM
        };
        let m = [status, pad as u8, velocity];
        assert(m@ =~= led(status, pad as u8, velocity));
        msgs.push(m);
        pad = pad + 1;
    }
    assert(msgs_view(msgs@) =~= style_target_pads_spec(deck as int, count as nat, selected@));
    msgs
}

/// Light only the active effect's pad in the PAD FX bank (`None`: all dark).
pub fn fx_pads(deck: usize, active: Option<usize>) -> (msgs: Vec<[u8; 3]>)
    requires
        deck < DECK_COUNT,
    ensures
        msgs_view(msgs@) == fx_pads_spec(deck as int, active),
{
    let status = pad_status(deck);
    let mut msgs: Vec<[u8; 3]> = Vec::new();
    let mut pad: usize = 0;
    while pad < BANK_PADS
        invariant
            0 <= pad <= BANK_PADS,
            status == pad_status_spec(deck as int),
            msgs@.len() == pad,
            forall|j: int| 0 <= j < pad ==> (#[trigger] msgs@[j])@ == led(status, (PAD_FX_NOTE_BASE + j) as u8, lit(active == Some(j as usize))),
        decreases BANK_PADS - pad,
    {
        let on = match active {
            Some(a) => a == pad,
            None => false,
        };
        msgs.push(echo(status, PAD_FX_NOTE_BASE + pad as u8, on));
        pad = pad + 1;
    }
    assert(msgs_view(msgs@) =~= fx_pads_spec(deck as int, active));
    msgs
}

/// Light the filled loop slots in the SAMPLER bank.
pub fn loop_pads(deck: usize, filled: &[bool]) -> (msgs: Vec<[u8; 3]>)
    requires
        deck < DECK_COUNT,
    ensures
        msgs_view(msgs@) == loop_pads_spec(deck as int, filled@),
{
    let status = pad_status(deck);
    let mut msgs: Vec<[u8; 3]> = Vec::new();
    let mut pad: usize = 0;
    while pad < BANK_PADS
        invariant
            0 <= pad <= BANK_PADS,
            status == pad_status_spec(deck as int),
            msgs@.len() == pad,
            forall|j: int| 0 <= j < pad ==> (#[trigger] msgs@[j])@ == led(status, (LOOP_NOTE_BASE + j) as u8, lit(flag(filled@, j))),
        decreases BANK_PADS - pad,
    {
        msgs.push(echo(status, LOOP_NOTE_BASE + pad as u8, flag_at(filled, pad)));
        pad = pad + 1;
    }
    assert(msgs_view(msgs@) =~= loop_pads_spec(deck as int, filled@));
    msgs
}

/// Light the filled hot cues in the HOT CUE bank.
pub fn cue_pads(deck: usize, filled: &[bool]) -> (msgs: Vec<[u8; 3]>)
    requires
        deck < DECK_COUNT,
    ensures
        msgs_view(msgs@) == cue_pads_spec(deck as int, filled@),
{
    let status = pad_status(deck);
    let mut msgs: Vec<[u8; 3]> = Vec::new();
    let mut pad: usize = 0;
    while pad < BANK_PADS
        invariant
            0 <= pad <= BANK_PADS,
            status == pad_status_spec(deck as int),
            msgs@.len() == pad,
            forall|j: int| 0 <= j < pad ==> (#[trigger] msgs@[j])@ == led(status, j as u8, lit(flag(filled@, j))),
        decreases BANK_PADS - pad,
    {
        msgs.push(echo(status, pad as u8, flag_at(filled, pad)));
        pad = pad + 1;
    }
    assert(msgs_view(msgs@) =~= cue_pads_spec(deck as int, filled@));
    msgs
}

/// Whether every pitch of a non-empty `triad` is in `held`.
fn all_held(triad: &[u8], held: &[u8]) -> (b: bool)
    ensures
        b == (triad@.len() > 0 && forall|k: int| 0 <= k < triad@.len() ==> held@.contains(#[trigger] triad@[k])),
{
    if triad.len() == 0 {
        return false;
    }
    let mut i: usize = 0;
    while i < triad.len()
        invariant
            0 <= i <= triad@.len(),
            forall|k: int| 0 <= k < i ==> held@.contains(#[trigger] triad@[k]),
        decreases triad@.len() - i,
    {
        if !contains_pitch(held, triad[i]) {
            return false;
        }
        i = i + 1;
    }
    true
}

/// The KEYBOARD performance bank: armed, every pad sits dim (the bank reads
/// as live at a glance) and a pad whose triad is fully held burns bright;
/// disarmed, the bank is dark. A keyboard-sourced hold that completes a
/// pad's triad lights that pad too: the deck is playing it.
pub fn keyboard_pads(deck: usize, snap: &DeckLedView) -> (msgs: Vec<[u8; 3]>)
    requires
        deck < DECK_COUNT,
    ensures
        msgs_view(msgs@) == keyboard_pads_spec(deck as int, snap.performance, held_of(snap.notes)),
        msgs@.len() == 8,
        forall|pad: int|
            0 <= pad < 8 ==> {
                let triad = pad_pitches_spec(snap.performance.key, snap.performance.scale, pad as nat);
                &&& (#[trigger] msgs@[pad])[2] == 0x7f <==> snap.performance.armed && triad.len() > 0 && forall|p: u8|
                    triad.contains(p) ==> held_of(snap.notes).contains(p)
                &&& msgs@[pad][2] == 0x00 <==> !snap.performance.armed
                &&& msgs@[pad][2] == 0x7f || msgs@[pad][2] == 0x20 || msgs@[pad][2] == 0x00
            },
{
    let status = pad_status(deck);
    let perf = snap.performance;
    let empty: Vec<u8> = Vec::new();
    let held: &[u8] = match &snap.notes {
        Some(steering) => steering.pitches.as_slice(),
        None => empty.as_slice(),
    };
    assert(held@ == held_of(snap.notes));
    let mut msgs: Vec<[u8; 3]> = Vec::new();
    let mut pad: usize = 0;
    while pad < BANK_PADS
        invariant
            0 <= pad <= BANK_PADS,
            status == pad_status_spec(deck as int),
            perf == snap.performance,
            held@ == held_of(snap.notes),
            msgs@.len() == pad,
            forall|j: int|
                0 <= j < pad ==> (#[trigger] msgs@[j])@ == led(
                    status,
                    (KEYBOARD_NOTE_BASE + j) as u8,
                    keyboard_velocity(perf, held@, j),
                ),
        decreases BANK_PADS - pad,
    {
        let velocity = if !perf.armed {
            0x00
        } else {
            proof {
                lemma_small_pad_fits(perf.key, perf.scale, pad as nat);
            }
            let triad = pad_pitches(perf.key, perf.scale, pad);
            if all_held(triad.as_slice(), held) {
                PAD_LED_BRIGHT
            } else {
                PAD_LED_DIM
            }
        };
        let m = [status, KEYBOARD_NOTE_BASE + pad as u8, velocity];
        assert(m@ =~= led(status, (KEYBOARD_NOTE_BASE + pad) as u8, velocity));
        msgs.push(m);
        pad = pad + 1;
    }
    assert(msgs_view(msgs@) =~= keyboard_pads_spec(deck as int, snap.performance, held_of(snap.notes)));
    proof {
        assert forall|pad: int| 0 <= pad < 8 implies {
            let triad = pad_pitches_spec(snap.performance.key, snap.performance.scale, pad as nat);
            &&& (#[trigger] msgs@[pad])[2] == 0x7f <==> snap.performance.armed && triad.len() > 0 && forall|p: u8|
                triad.contains(p) ==> held_of(snap.notes).contains(p)
            &&& msgs@[pad][2] == 0x00 <==> !snap.performance.armed
            &&& msgs@[pad][2] == 0x7f || msgs@[pad][2] == 0x20 || msgs@[pad][2] == 0x00
        } by {
            lemma_keyboard_pad_lights_a_fully_held_triad(deck as int, snap.performance, held_of(snap.notes), pad);
            assert(msgs@[pad]@ == keyboard_pads_spec(deck as int, snap.performance, held_of(snap.notes))[pad]);
        }
    }
    msgs
}

/// An armed KEYBOARD pad burns bright exactly when every pitch of its
/// (non-empty) triad is held, sits dim otherwise, and is dark when the deck
/// is disarmed; the pad's note is its bank note on the deck's pad status.
pub proof fn lemma_keyboard_pad_lights_a_fully_held_triad(deck: int, perf: PerformanceSnap, held: Seq<u8>, pad: int)
    requires
        0 <= pad < 8,
    ensures
        ({
            let triad = pad_pitches_spec(perf.key, perf.scale, pad as nat);
            let m = keyboard_pads_spec(deck, perf, held)[pad];
            &&& m.len() == 3
            &&& m[0] == pad_status_spec(deck)
            &&& m[1] == 0x40 + pad
            &&& m[2] == 0x7f <==> perf.armed && triad.len() > 0 && forall|p: u8| triad.contains(p) ==> held.contains(p)
            &&& m[2] == 0x00 <==> !perf.armed
            &&& m[2] == 0x7f || m[2] == 0x20 || m[2] == 0x00
        }),
{
    let triad = pad_pitches_spec(perf.key, perf.scale, pad as nat);
    if perf.armed && triad.len() > 0 {
        if forall|k: int| 0 <= k < triad.len() ==> held.contains(#[trigger] triad[k]) {
            assert forall|p: u8| triad.contains(p) implies held.contains(p) by {
                let k = choose|k: int| 0 <= k < triad.len() && triad[k] == p;
                assert(held.contains(triad[k]));
            }
        } else {
            let k = choose|k: int| 0 <= k < triad.len() && !held.contains(#[trigger] triad[k]);
            assert(triad.contains(triad[k]));
        }
    }
}

/// The plain and shifted selector notes of button `i`.
fn selector_pair(i: usize) -> (pair: (u8, u8))
    requires
        i < SELECTOR_BUTTONS,
    ensures
        pair == (plain_selector(i as int), shifted_selector(i as int)),
{
    if i == 0 {
        (0x1b, 0x69)
    } else if i == 1 {
        (0x1e, 0x6b)
    } else if i == 2 {
        (0x20, 0x6d)
    } else {
        (0x22, 0x6f)
    }
}

/// The pad-mode selector LEDs: the active bank's button lit, the other
/// three dark, one message per physical button. The active bank's own note
/// (plain or shifted layer) addresses the button it owns, the plain note
/// every other button, so a dark shifted-layer write can never land after
/// (and clear) a lit plain-layer sibling on the same button.
pub fn mode_selectors(deck: usize, active: u8) -> (msgs: Vec<[u8; 3]>)
    requires
        deck < DECK_COUNT,
    ensures
        msgs_view(msgs@) == mode_selectors_spec(deck as int, active),
{
    let status = note_on_status(deck);
    let mut msgs: Vec<[u8; 3]> = Vec::new();
    let mut i: usize = 0;
    while i < SELECTOR_BUTTONS
        invariant
            0 <= i <= SELECTOR_BUTTONS,
            status == note_on_status_spec(deck as int),
            msgs@.len() == i,
            forall|j: int| 0 <= j < i ==> (#[trigger] msgs@[j])@ == mode_selectors_spec(deck as int, active)[j],
        decreases SELECTOR_BUTTONS - i,
    {
        let (plain, shifted) = selector_pair(i);
        if active == shifted {
            msgs.push(echo(status, shifted, true));
        } else {
            msgs.push(echo(status, plain, active == plain));
        }
        i = i + 1;
    }
    assert(msgs_view(msgs@) =~= mode_selectors_spec(deck as int, active));
    msgs
}

/// The channel (headphone) CUE button LED of a deck.
pub fn channel_cue(deck: usize, on: bool) -> (msgs: Vec<[u8; 3]>)
    requires
        deck < DECK_COUNT,
    ensures
        msgs_view(msgs@) == channel_cue_spec(deck as int, on),
{
    let msgs = vec![echo(note_on_status(deck), CHANNEL_CUE_NOTE, on)];
    assert(msgs_view(msgs@) =~= channel_cue_spec(deck as int, on));
    msgs
}

/// The transport CUE button LED of a deck (lit while primed off air).
pub fn transport_cue(deck: usize, on: bool) -> (msgs: Vec<[u8; 3]>)
    requires
        deck < DECK_COUNT,
    ensures
        msgs_view(msgs@) == transport_cue_spec(deck as int, on),
{
    let msgs = vec![echo(note_on_status(deck), TRANSPORT_CUE_NOTE, on)];
    assert(msgs_view(msgs@) =~= transport_cue_spec(deck as int, on));
    msgs
}

/// The PAD FX pad of an effect, in the webview's FX order.
pub fn fx_index(kind: FxKindSnap) -> (i: usize)
    ensures
        i == fx_index_spec(kind),
{
    match kind {
        FxKindSnap::Filter => 0,
        FxKindSnap::DubEcho => 1,
        FxKindSnap::Space => 2,
        FxKindSnap::Crush => 3,
        FxKindSnap::Noise => 4,
        FxKindSnap::Sweep => 5,
    }
}

/// One deck's LED groups: the HOT CUE bank (filled cues on a playback deck,
/// style targets on a realtime deck), PAD FX, SAMPLER, KEYBOARD, channel
/// CUE, transport CUE and the pad-mode selectors for the tracked `bank`.
pub fn deck_frame(deck: usize, snap: &DeckLedView, loop_filled: &[bool], bank: u8) -> (frame: Vec<Vec<[u8; 3]>>)
    requires
        deck < DECK_COUNT,
    ensures
        frame@.len() == DECK_GROUPS,
        forall|g: int| 0 <= g < DECK_GROUPS ==> msgs_view(#[trigger] frame@[g]@) == deck_group(
            deck as int,
            *snap,
            loop_filled@,
            bank,
            g,
        ),
{
    let hot_cue_bank = if snap.has_track {
        cue_pads(deck, snap.cues_filled.as_slice())
    } else {
        style_target_pads(deck, snap.style_target_count, snap.style_selected.as_slice())
    };
    let active = match snap.fx_kind {
        Some(kind) => Some(fx_index(kind)),
        None => None,
    };
    let frame = vec![
        hot_cue_bank,
        fx_pads(deck, active),
        loop_pads(deck, loop_filled),
        keyboard_pads(deck, snap),
        channel_cue(deck, snap.cue),
        transport_cue(deck, snap.primed),
        mode_selectors(deck, bank),
    ];
    frame
}

/// The loop-slot flags of deck `d` (none past the given decks).
pub open spec fn loop_flags_of(loop_filled: Seq<Vec<bool>>, d: int) -> Seq<bool> {
    if 0 <= d < loop_filled.len() {
        loop_filled[d]@
    } else {
        Seq::empty()
    }
}

/// The tracked selector note of deck `d` (the power-on HOT CUE default for
/// a deck the painter has not tracked yet).
pub open spec fn bank_of(banks: Seq<u8>, d: int) -> u8 {
    if 0 <= d < banks.len() {
        banks[d]
    } else {
        DEFAULT_BANK
    }
}

/// The full LED frame for the decks, deck after deck: what the painter
/// diffs and sends.
pub fn full_frame(decks: &[DeckLedView], loop_filled: &[Vec<bool>], banks: &[u8]) -> (frame: Vec<Vec<[u8; 3]>>)
    requires
        decks@.len() <= DECK_COUNT,
    ensures
        frame@.len() == DECK_GROUPS * decks@.len(),
        forall|d: int, g: int|
            0 <= d < decks@.len() && 0 <= g < DECK_GROUPS ==> msgs_view(
                #[trigger] frame@[DECK_GROUPS * d + g]@,
            ) == deck_group(d, decks@[d], loop_flags_of(loop_filled@, d), bank_of(banks@, d), g),
{
    let empty: Vec<bool> = Vec::new();
    let mut frame: Vec<Vec<[u8; 3]>> = Vec::new();
    let mut d: usize = 0;
    while d < decks.len()
        invariant
            0 <= d <= decks@.len(),
            decks@.len() <= DECK_COUNT,
            empty@.len() == 0,
            frame@.len() == DECK_GROUPS * d,
            forall|e: int, g: int|
                0 <= e < d && 0 <= g < DECK_GROUPS ==> msgs_view(
                    #[trigger] frame@[DECK_GROUPS * e + g]@,
                ) == deck_group(e, decks@[e], loop_flags_of(loop_filled@, e), bank_of(banks@, e), g),
        decreases decks@.len() - d,
    {
        let flags: &[bool] = if d < loop_filled.len() {
            loop_filled[d].as_slice()
        } else {
            empty.as_slice()
        };
        let bank = if d < banks.len() {
            banks[d]
        } else {
            DEFAULT_BANK
        };
        assert(flags@ == loop_flags_of(loop_filled@, d as int));
        let mut groups = deck_frame(d, &decks[d], flags, bank);
        let ghost before = frame@;
        frame.append(&mut groups);
        proof {
            assert forall|e: int, g: int|
                0 <= e < d + 1 && 0 <= g < DECK_GROUPS implies msgs_view(
                    #[trigger] frame@[DECK_GROUPS * e + g]@,
                ) == deck_group(e, decks@[e], loop_flags_of(loop_filled@, e), bank_of(banks@, e), g) by {
                if e < d {
                    assert(DECK_GROUPS * e + g < DECK_GROUPS * d) by (nonlinear_arith)
                        requires e < d, g < DECK_GROUPS;
                    assert(frame@[DECK_GROUPS * e + g] == before[DECK_GROUPS * e + g]);
                } else {
                    assert(frame@[DECK_GROUPS * e + g] == frame@[before.len() + g]);
                }
            }
        }
        d = d + 1;
    }
    frame
}

/// The selector frame lights one physical button at most, and the one the
/// active bank note belongs to, addressed by that very note.
pub proof fn lemma_mode_selectors_light_one_button(deck: int, active: u8)
    ensures
        forall|i: int, j: int|
            0 <= i < SELECTOR_BUTTONS && 0 <= j < SELECTOR_BUTTONS && #[trigger] mode_selectors_spec(deck, active)[i][2]
                == PAD_LED_BRIGHT && #[trigger] mode_selectors_spec(deck, active)[j][2] == PAD_LED_BRIGHT ==> i == j,
        forall|i: int|
            0 <= i < SELECTOR_BUTTONS && (active == plain_selector(i) || active == shifted_selector(i)) ==> {
                &&& #[trigger] mode_selectors_spec(deck, active)[i][1] == active
                &&& mode_selectors_spec(deck, active)[i][2] == PAD_LED_BRIGHT
            },
{
}

} // verus!
