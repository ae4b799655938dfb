use magenta_dj::notes::{build_multihot, pad_pitches, snap_to_scale, NOTE_SLOTS};
use magenta_dj::snapshot::{NoteModeSnap, PerformanceSnap, ScaleSnap};
use magenta_dj::steering::DeckState;

#[test]
fn pads_play_diatonic_triads_in_the_chosen_key() {
    // C major: pad 0 = C-E-G, pad 1 = D-F-A, pad 5 = A-C-E (the relative
    // minor), pad 7 = the octave tonic triad.
    assert_eq!(pad_pitches(0, ScaleSnap::Major, 0), vec![60, 64, 67]);
    assert_eq!(pad_pitches(0, ScaleSnap::Major, 1), vec![62, 65, 69]);
    assert_eq!(pad_pitches(0, ScaleSnap::Major, 5), vec![69, 72, 76]);
    assert_eq!(pad_pitches(0, ScaleSnap::Major, 7), vec![72, 76, 79]);
    // A minor: pad 0 = A-C-E.
    assert_eq!(pad_pitches(9, ScaleSnap::Minor, 0), vec![69, 72, 76]);
}

#[test]
fn chromatic_pads_play_single_semitones() {
    assert_eq!(pad_pitches(0, ScaleSnap::Chromatic, 0), vec![60]);
    assert_eq!(pad_pitches(0, ScaleSnap::Chromatic, 7), vec![67]);
}

#[test]
fn snap_keeps_in_scale_pitches_and_pulls_neighbours_in() {
    // E is in C major; Eb snaps down to D (ties resolve flat), F# to F.
    assert_eq!(snap_to_scale(64, 0, ScaleSnap::Major), 64);
    assert_eq!(snap_to_scale(63, 0, ScaleSnap::Major), 62);
    assert_eq!(snap_to_scale(66, 0, ScaleSnap::Major), 65);
    // Bb sits between A and B in C major: the tie resolves flat, to A.
    assert_eq!(snap_to_scale(70, 0, ScaleSnap::Major), 69);
    // Chromatic never moves a pitch.
    assert_eq!(snap_to_scale(63, 0, ScaleSnap::Chromatic), 63);
    // The snap respects the key: F# is IN G major.
    assert_eq!(snap_to_scale(66, 7, ScaleSnap::Major), 66);
}

#[test]
fn multihot_masks_non_held_pitches_like_the_reference() {
    // Empty hold → None (masked, model free), not an all-zero vector.
    assert_eq!(build_multihot(&[], NoteModeSnap::Chord, &[]), None);
    // Chord mode: held pitches are model-decides (3), the rest masked (-1).
    let hot = build_multihot(&[60, 64, 67], NoteModeSnap::Chord, &[]).unwrap();
    assert_eq!(hot.len(), NOTE_SLOTS);
    assert_eq!(hot[60], 3);
    assert_eq!(hot[64], 3);
    assert_eq!(hot[67], 3);
    assert_eq!(hot[61], -1);
    // Onset mode: a re-held pitch sustains (1), a fresh one attacks (2).
    let hot = build_multihot(&[60, 64], NoteModeSnap::Onset, &[60]).unwrap();
    assert_eq!(hot[60], 1);
    assert_eq!(hot[64], 2);
    assert_eq!(hot[61], -1);
}

#[test]
fn pad_holds_stack_and_release_their_own_pitches() {
    let mut state = DeckState::new();
    state.pad_down(0); // C-E-G
    state.pad_down(2); // E-G-B: E and G now doubly held
    assert_eq!(state.held_pitches(), vec![60, 64, 67, 71]);
    state.pad_up(0);
    // E and G survive pad 0's release: pad 2 still holds them.
    assert_eq!(state.held_pitches(), vec![64, 67, 71]);
    state.pad_up(2);
    assert!(state.held_pitches().is_empty());
}

#[test]
fn a_key_change_mid_hold_still_releases_the_original_pitches() {
    let mut state = DeckState::new();
    state.pad_down(0); // C major triad
    let mut perf = state.performance_config();
    perf.key = 2; // the performer re-keys to D mid-hold
    state.set_performance(perf);
    state.pad_up(0); // must release C-E-G, not D's triad
    assert!(state.held_pitches().is_empty());
}

#[test]
fn keyboard_notes_snap_on_press_and_release_by_raw_pitch() {
    let mut state = DeckState::new();
    state.key_down(63); // Eb snaps to D in C major
    assert_eq!(state.held_pitches(), vec![62]);
    let mut perf = state.performance_config();
    perf.key = 4; // re-key mid-hold
    state.set_performance(perf);
    state.key_up(63); // the release still finds the D it pressed
    assert!(state.held_pitches().is_empty());
}

#[test]
fn a_repeated_pad_down_without_a_release_does_not_leak_holds() {
    let mut state = DeckState::new();
    state.pad_down(0);
    state.pad_down(0); // dropped release: replaces, never stacks
    state.pad_up(0);
    assert!(state.held_pitches().is_empty());
}

#[test]
fn clear_holds_drops_state_but_keeps_the_performance_config() {
    let mut state = DeckState::new();
    let mut perf = state.performance_config();
    perf.armed = true;
    perf.key = 9;
    state.set_performance(perf);
    state.pad_down(0);
    state.key_down(65);
    state.record_sent(vec![60]);
    state.clear_holds();
    assert!(state.held_pitches().is_empty());
    assert!(state.sent().is_empty());
    assert!(state.performance_config().armed);
    assert_eq!(state.performance_config().key, 9);
}

#[test]
fn drum_conditioning_is_deck_config_and_survives_a_discontinuity_clear() {
    // A stopped-and-restarted deck must not silently un-sit: the authored
    // mode lives beside the performance config, outside the held state a
    // discontinuity drops. (The guidance strength is a float the host keeps.)
    let mut state = DeckState::new();
    assert_eq!(state.drums(), None);
    state.set_drum_mode(Some(false));
    state.pad_down(0);
    state.clear_holds();
    assert!(state.held_pitches().is_empty());
    assert_eq!(state.drums(), Some(false));
}

#[test]
fn snap_lands_every_raw_pitch_in_the_scale() {
    // Pentatonic minor in A: every pitch of the octave above A3 snaps to a
    // scale member, and scale members stay put.
    let classes = [0u8, 3, 5, 7, 10];
    for raw in 57u8..69 {
        let snapped = snap_to_scale(raw, 9, ScaleSnap::PentatonicMinor);
        let class = (snapped as i32 - 9).rem_euclid(12) as u8;
        assert!(classes.contains(&class), "{raw} snapped to {snapped}");
        assert!((snapped as i32 - raw as i32).abs() <= 2);
    }
    assert_eq!(snap_to_scale(60, 9, ScaleSnap::PentatonicMinor), 60);
}

#[test]
fn snap_works_at_the_top_of_the_midi_range() {
    // The top of the MIDI range: B7 snaps within range in C major.
    assert_eq!(snap_to_scale(127, 0, ScaleSnap::Major), 127);
    assert_eq!(snap_to_scale(126, 0, ScaleSnap::Major), 125);
}

#[test]
fn high_keys_drop_pad_pitches_past_the_midi_range() {
    // Key 200 is no pitch class the UI offers, but the triad arithmetic
    // still holds: every pitch lands past 127 and is dropped.
    assert!(pad_pitches(200, ScaleSnap::Major, 0).is_empty());
}

#[test]
fn replace_holds_holds_exactly_the_given_pitches() {
    let mut state = DeckState::new();
    state.pad_down(3);
    state.replace_holds(&[67, 60, 60, 64]);
    assert_eq!(state.held_pitches(), vec![60, 64, 67]);
    let perf: PerformanceSnap = state.performance_config();
    assert!(!perf.armed);
}
