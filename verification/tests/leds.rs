use magenta_dj::leds::{
    channel_cue, cue_pads, deck_frame, full_frame, fx_index, fx_pads, keyboard_pads, loop_pads, mode_selectors,
    style_target_pads, transport_cue, DeckLedView,
};
use magenta_dj::snapshot::{FxKindSnap, NoteModeSnap, NoteSteeringSnap, PerformanceSnap};

fn deck_snap() -> DeckLedView {
    DeckLedView {
        has_track: false,
        cues_filled: Vec::new(),
        style_target_count: 0,
        style_selected: Vec::new(),
        fx_kind: None,
        performance: PerformanceSnap::default(),
        notes: None,
        cue: false,
        primed: false,
    }
}

#[test]
fn style_target_pads_light_count_and_mask() {
    // No mask: pads 0..count full bright, the rest dark.
    let msgs = style_target_pads(0, 3, &[]);
    assert_eq!(msgs.len(), 8);
    assert_eq!(msgs[0], [0x97, 0x00, 0x7f]);
    assert_eq!(msgs[2], [0x97, 0x02, 0x7f]);
    assert_eq!(msgs[3], [0x97, 0x03, 0x00]);
    // With the net mask: selected bright, unselected dim.
    let msgs = style_target_pads(1, 2, &[true, false]);
    assert_eq!(msgs[0], [0x99, 0x00, 0x7f]);
    assert_eq!(msgs[1], [0x99, 0x01, 0x20]);
}

#[test]
fn fx_pads_light_only_the_active_effect() {
    let msgs = fx_pads(0, Some(1));
    assert_eq!(msgs[1], [0x97, 0x11, 0x7f]);
    assert_eq!(msgs[0], [0x97, 0x10, 0x00]);
    let dark = fx_pads(0, None);
    assert!(dark.iter().all(|m| m[2] == 0x00));
}

#[test]
fn loop_and_cue_pads_echo_filled_state() {
    let msgs = loop_pads(0, &[true, false, true]);
    assert_eq!(msgs[0], [0x97, 0x30, 0x7f]);
    assert_eq!(msgs[1], [0x97, 0x31, 0x00]);
    assert_eq!(msgs[2], [0x97, 0x32, 0x7f]);
    assert_eq!(msgs[7], [0x97, 0x37, 0x00]); // past the given slots = dark
    let msgs = cue_pads(1, &[false, true]);
    assert_eq!(msgs[1], [0x99, 0x01, 0x7f]);
}

#[test]
fn keyboard_pads_read_armed_dim_and_held_bright() {
    // Disarmed: the whole bank is dark.
    let mut snap = deck_snap();
    let dark = keyboard_pads(0, &snap);
    assert_eq!(dark.len(), 8);
    assert!(dark.iter().all(|m| m[2] == 0x00));
    assert_eq!(dark[0][..2], [0x97, 0x40]);
    assert_eq!(dark[7][..2], [0x97, 0x47]);

    // Armed with nothing held: every pad sits dim, the bank reads live.
    snap.performance.armed = true;
    let idle = keyboard_pads(1, &snap);
    assert!(idle.iter().all(|m| m[2] == 0x20));
    assert_eq!(idle[0][..2], [0x99, 0x40]);

    // Holding pad 0's triad (C-E-G in C major) burns that pad bright; a pad
    // whose triad is only partially covered stays dim.
    snap.notes = Some(NoteSteeringSnap { pitches: vec![60, 64, 67], mode: NoteModeSnap::Chord });
    let held = keyboard_pads(0, &snap);
    assert_eq!(held[0][2], 0x7f);
    assert_eq!(held[1][2], 0x20); // D-F-A not held
    assert_eq!(held[2][2], 0x20); // E-G-B needs B too
}

#[test]
fn cue_buttons_echo_on_their_deck_status() {
    assert_eq!(channel_cue(0, true), vec![[0x90, 0x54, 0x7f]]);
    assert_eq!(channel_cue(1, false), vec![[0x91, 0x54, 0x00]]);
    assert_eq!(transport_cue(0, true), vec![[0x90, 0x0c, 0x7f]]);
}

#[test]
fn mode_selectors_light_one_physical_button() {
    // A plain bank: its button lit, the other three dark via their plain
    // notes, one message per physical button.
    let msgs = mode_selectors(0, 0x1e);
    assert_eq!(msgs, vec![[0x90, 0x1b, 0x00], [0x90, 0x1e, 0x7f], [0x90, 0x20, 0x00], [0x90, 0x22, 0x00],]);
    // A shifted bank (KEYBOARD): addressed by its own note on the same
    // physical button, no dark plain-layer write may follow it.
    let msgs = mode_selectors(1, 0x69);
    assert_eq!(msgs, vec![[0x91, 0x69, 0x7f], [0x91, 0x1e, 0x00], [0x91, 0x20, 0x00], [0x91, 0x22, 0x00],]);
}

#[test]
fn the_hot_cue_bank_follows_the_deck_mode() {
    // Realtime deck (no track): style targets paint the bank.
    let mut snap = deck_snap();
    snap.style_target_count = 2;
    let frame = deck_frame(0, &snap, &[], 0x1b);
    assert_eq!(frame[0][0], [0x97, 0x00, 0x7f]);
    assert_eq!(frame[0][2], [0x97, 0x02, 0x00]);
    // Playback deck (track loaded): filled cues paint the bank.
    snap.has_track = true;
    snap.cues_filled = vec![true, false];
    let frame = deck_frame(0, &snap, &[], 0x1b);
    assert_eq!(frame[0][0], [0x97, 0x00, 0x7f]);
    assert_eq!(frame[0][1], [0x97, 0x01, 0x00]);
}

#[test]
fn the_fx_group_reads_the_snapshot_kind() {
    let mut snap = deck_snap();
    snap.fx_kind = Some(FxKindSnap::Space);
    let frame = deck_frame(1, &snap, &[], 0x1b);
    // Group 1 is PAD FX; Space is pad index 2 (the webview FX order).
    assert_eq!(frame[1][2], [0x99, 0x12, 0x7f]);
    assert_eq!(frame[1][0], [0x99, 0x10, 0x00]);
}

#[test]
fn fx_index_follows_the_webview_order() {
    assert_eq!(fx_index(FxKindSnap::Filter), 0);
    assert_eq!(fx_index(FxKindSnap::DubEcho), 1);
    assert_eq!(fx_index(FxKindSnap::Space), 2);
    assert_eq!(fx_index(FxKindSnap::Crush), 3);
    assert_eq!(fx_index(FxKindSnap::Noise), 4);
    assert_eq!(fx_index(FxKindSnap::Sweep), 5);
}

#[test]
fn a_deck_frame_has_seven_groups_in_order() {
    let mut snap = deck_snap();
    snap.cue = true;
    snap.primed = true;
    let frame = deck_frame(0, &snap, &[true], 0x20);
    assert_eq!(frame.len(), 7);
    assert_eq!(frame[2][0], [0x97, 0x30, 0x7f]);
    assert_eq!(frame[3][0], [0x97, 0x40, 0x00]);
    assert_eq!(frame[4], vec![[0x90, 0x54, 0x7f]]);
    assert_eq!(frame[5], vec![[0x90, 0x0c, 0x7f]]);
    assert_eq!(frame[6][2], [0x90, 0x20, 0x7f]);
}

#[test]
fn full_frame_concatenates_decks_and_defaults_the_bank() {
    let a = deck_snap();
    let mut b = deck_snap();
    b.cue = true;
    let frame = full_frame(&[a, b], &[vec![true]], &[0x22]);
    assert_eq!(frame.len(), 14);
    // Deck A's SAMPLER shows its slot; deck B has no loop flags given.
    assert_eq!(frame[2][0], [0x97, 0x30, 0x7f]);
    assert_eq!(frame[9][0], [0x99, 0x30, 0x00]);
    // Deck A's tracked bank; deck B falls back to HOT CUE.
    assert_eq!(frame[6][3], [0x90, 0x22, 0x7f]);
    assert_eq!(frame[13][0], [0x91, 0x1b, 0x7f]);
    assert_eq!(frame[11], vec![[0x91, 0x54, 0x7f]]);
}

#[test]
fn an_unknown_bank_lights_no_selector() {
    let msgs = mode_selectors(0, 0x00);
    assert!(msgs.iter().all(|m| m[2] == 0x00));
    assert_eq!(msgs.len(), 4);
}
