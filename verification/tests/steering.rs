use magenta_dj::notes::NOTE_SLOTS;
use magenta_dj::service::{NoteSteering, SteeringAction, ARMED_CHUNK_FRAMES, DEFAULT_CHUNK_FRAMES};
use magenta_dj::snapshot::{NoteModeSnap, PerformanceSnap, ScaleSnap};

fn notes_of(action: &SteeringAction) -> Option<Vec<i32>> {
    match action {
        SteeringAction::SetNotes { notes, .. } => notes.clone(),
        other => panic!("expected set_notes, got {other:?}"),
    }
}

fn held_of(action: &SteeringAction) -> Option<Vec<u8>> {
    match action {
        SteeringAction::MirrorNotes { steering, .. } => steering.as_ref().map(|s| s.pitches.clone()),
        other => panic!("expected a notes mirror, got {other:?}"),
    }
}

#[test]
fn a_pad_press_on_an_unarmed_deck_arms_it_then_sends_the_triad() {
    let mut s = NoteSteering::new();
    let acts = s.pad_event(0, 0, true, false);
    assert_eq!(acts.len(), 4);
    assert!(matches!(acts[0], SteeringAction::SetChunkFrames { deck: 0, frames: ARMED_CHUNK_FRAMES }));
    assert!(matches!(acts[1], SteeringAction::MirrorPerformance { deck: 0, perf } if perf.armed));
    let hot = notes_of(&acts[2]).unwrap();
    assert_eq!(hot.len(), NOTE_SLOTS);
    assert_eq!((hot[60], hot[64], hot[67], hot[62]), (3, 3, 3, -1));
    assert_eq!(held_of(&acts[3]), Some(vec![60, 64, 67]));
    assert!(s.performance(0).armed);
    assert!(!s.performance(1).armed);
}

#[test]
fn a_release_sends_the_remaining_full_state() {
    let mut s = NoteSteering::new();
    s.pad_event(0, 0, true, false);
    s.pad_event(0, 2, true, false);
    let acts = s.pad_event(0, 0, false, false);
    assert_eq!(acts.len(), 2);
    assert_eq!(held_of(&acts[1]), Some(vec![64, 67, 71]));
    let acts = s.pad_event(0, 2, false, false);
    assert_eq!(notes_of(&acts[0]), None);
    assert_eq!(held_of(&acts[1]), None);
    assert!(s.held(0).is_empty());
}

#[test]
fn onset_presses_on_a_known_beat_are_scheduled_and_fire_once() {
    let mut s = NoteSteering::new();
    let perf = PerformanceSnap { armed: true, key: 0, scale: ScaleSnap::Major, mode: NoteModeSnap::Onset };
    s.set_performance(1, perf);
    let acts = s.pad_event(1, 0, true, true);
    assert_eq!(acts.len(), 1);
    let stamp = match acts[0] {
        SteeringAction::Schedule { deck: 1, stamp } => stamp,
        ref other => panic!("expected a schedule, got {other:?}"),
    };
    // A release while the send is pending folds into it.
    assert!(s.pad_event(1, 0, false, true).is_empty());
    let fired = s.fire_scheduled(1, stamp);
    assert_eq!(fired.len(), 2);
    assert_eq!(notes_of(&fired[0]), None);
    // The same deadline cannot fire twice.
    assert!(s.fire_scheduled(1, stamp).is_empty());
}

#[test]
fn onset_marks_fresh_attacks_and_sustains_held_pitches() {
    let mut s = NoteSteering::new();
    let perf = PerformanceSnap { armed: true, key: 0, scale: ScaleSnap::Major, mode: NoteModeSnap::Onset };
    s.set_performance(0, perf);
    s.pad_event(0, 0, true, false);
    let acts = s.pad_event(0, 2, true, false);
    let hot = notes_of(&acts[0]).unwrap();
    // E and G were sent before (sustain); B is fresh (onset).
    assert_eq!((hot[64], hot[67], hot[71]), (1, 1, 2));
}

#[test]
fn a_reset_makes_a_scheduled_send_stale() {
    let mut s = NoteSteering::new();
    let perf = PerformanceSnap { armed: true, key: 0, scale: ScaleSnap::Major, mode: NoteModeSnap::Onset };
    s.set_performance(0, perf);
    let acts = s.pad_event(0, 3, true, true);
    let stamp = match acts[0] {
        SteeringAction::Schedule { stamp, .. } => stamp,
        _ => panic!("expected a schedule"),
    };
    s.reset(0);
    assert!(s.held(0).is_empty());
    assert!(s.fire_scheduled(0, stamp).is_empty());
    assert!(s.performance(0).armed);
}

#[test]
fn disarming_releases_every_hold_and_restores_the_default_chunk() {
    let mut s = NoteSteering::new();
    s.pad_event(0, 0, true, false);
    let acts = s.pad_mode_selected(0, false);
    assert_eq!(acts.len(), 4);
    assert!(matches!(acts[0], SteeringAction::SetChunkFrames { deck: 0, frames: DEFAULT_CHUNK_FRAMES }));
    assert_eq!(notes_of(&acts[1]), None);
    assert_eq!(held_of(&acts[2]), None);
    assert!(matches!(acts[3], SteeringAction::MirrorPerformance { deck: 0, perf } if !perf.armed));
    // Selecting the bank already active changes nothing.
    assert!(s.pad_mode_selected(0, false).is_empty());
}

#[test]
fn the_keyboard_steers_only_armed_decks() {
    let mut s = NoteSteering::new();
    assert!(s.keyboard_event(63, true, [false, false]).is_empty());
    s.pad_mode_selected(1, true);
    let acts = s.keyboard_event(63, true, [false, false]);
    assert_eq!(acts.len(), 2);
    assert!(matches!(acts[0], SteeringAction::SetNotes { deck: 1, .. }));
    assert_eq!(held_of(&acts[1]), Some(vec![62]));
    assert!(s.held(0).is_empty());
    let acts = s.keyboard_event(63, false, [false, false]);
    assert_eq!(held_of(&acts[1]), None);
}

#[test]
fn an_external_full_state_write_replaces_the_hold() {
    let mut s = NoteSteering::new();
    s.pad_event(0, 5, true, false);
    let acts = s.apply_external(0, &[72, 60], NoteModeSnap::Onset);
    assert_eq!(acts.len(), 3);
    assert!(matches!(acts[0], SteeringAction::MirrorPerformance { perf, .. } if perf.mode == NoteModeSnap::Onset));
    let hot = notes_of(&acts[1]).unwrap();
    assert_eq!((hot[60], hot[72], hot[69]), (2, 2, -1));
    assert_eq!(held_of(&acts[2]), Some(vec![60, 72]));
}

#[test]
fn drum_mode_is_sent_mirrored_and_reasserted() {
    let mut s = NoteSteering::new();
    let acts = s.set_drums(1, Some(false));
    assert!(matches!(acts[0], SteeringAction::SetDrums { deck: 1, mode: Some(false) }));
    assert!(matches!(acts[1], SteeringAction::MirrorDrums { deck: 1, mode: Some(false) }));
    s.reset(1);
    let acts = s.reassert_drums(1);
    assert!(matches!(acts[0], SteeringAction::SetDrums { deck: 1, mode: Some(false) }));
    assert_eq!(s.drums(1), Some(false));
}

#[test]
fn out_of_range_decks_and_keys_are_ignored() {
    let mut s = NoteSteering::new();
    assert!(s.pad_event(2, 0, true, false).is_empty());
    assert!(s.set_drums(7, Some(true)).is_empty());
    assert!(s.reassert_drums(2).is_empty());
    let perf = PerformanceSnap { armed: true, key: 12, scale: ScaleSnap::Major, mode: NoteModeSnap::Chord };
    assert!(s.set_performance(0, perf).is_empty());
    assert!(!s.performance(0).armed);
}
