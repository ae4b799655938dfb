use magenta_dj::deck::DeckId;
use magenta_dj::deck::Band;
use magenta_dj::translate::{Flx4Translator, Intent, Translated};

const PRESS: u8 = 0x7f;
const RELEASE: u8 = 0x00;

fn translator() -> Flx4Translator {
    Flx4Translator::default()
}

fn intent(t: &mut Flx4Translator, data: &[u8]) -> Option<Intent> {
    match t.translate(data) {
        Translated::Intent(i) => Some(i),
        _ => None,
    }
}

#[test]
fn play_press_toggles_the_deck() {
    for (status, deck) in [(0x90, DeckId::A), (0x91, DeckId::B)] {
        let mut t = translator();
        assert_eq!(
            intent(&mut t, &[status, 0x0b, PRESS]),
            Some(Intent::PlayToggle { deck })
        );
    }
}

#[test]
fn button_releases_are_ignored() {
    let mut t = translator();
    assert_eq!(t.translate(&[0x90, 0x0b, RELEASE]), Translated::Nothing);
    assert_eq!(t.translate(&[0x97, 0x03, RELEASE]), Translated::Nothing);
    assert_eq!(t.translate(&[0x94, 0x47, RELEASE]), Translated::Nothing);
}

#[test]
fn hot_cue_pads_emit_the_pad_gesture() {
    for (status, deck) in [(0x97, DeckId::A), (0x99, DeckId::B)] {
        let mut t = translator();
        for pad in 0..8u8 {
            assert_eq!(
                intent(&mut t, &[status, pad, PRESS]),
                Some(Intent::HotCuePad { deck, index: pad })
            );
        }
    }
}

#[test]
fn pad_notes_outside_mapped_banks_are_ignored() {
    let mut t = translator();
    assert_eq!(t.translate(&[0x97, 0x08, PRESS]), Translated::Nothing);
    assert_eq!(t.translate(&[0x99, 0x20, PRESS]), Translated::Nothing); // BEAT JUMP
    assert_eq!(t.translate(&[0x99, 0x18, PRESS]), Translated::Nothing); // past PAD FX
}

#[test]
fn pad_fx_pads_select_effects() {
    for (status, deck) in [(0x97, DeckId::A), (0x99, DeckId::B)] {
        let mut t = translator();
        for pad in 0..8u8 {
            assert_eq!(
                intent(&mut t, &[status, 0x10 + pad, PRESS]),
                Some(Intent::FxSelect { deck, index: pad })
            );
        }
        assert_eq!(t.translate(&[status, 0x10, RELEASE]), Translated::Nothing);
    }
}

#[test]
fn shift_layer_hot_cue_pads_clear_cues() {
    for (status, deck) in [(0x98, DeckId::A), (0x9a, DeckId::B)] {
        let mut t = translator();
        assert_eq!(
            intent(&mut t, &[status, 0x02, PRESS]),
            Some(Intent::HotCueClear { deck, index: 2 })
        );
    }
}

#[test]
fn other_shift_layer_banks_stay_unmapped() {
    let mut t = translator();
    assert_eq!(t.translate(&[0x98, 0x10, PRESS]), Translated::Nothing); // PAD FX shifted
    assert_eq!(t.translate(&[0x9a, 0x60, PRESS]), Translated::Nothing); // BEAT LOOP shifted
}

#[test]
fn loop_section_drives_track_loops() {
    for (status, deck) in [(0x90, DeckId::A), (0x91, DeckId::B)] {
        let mut t = translator();
        assert_eq!(
            intent(&mut t, &[status, 0x10, PRESS]),
            Some(Intent::TrackLoopIn { deck })
        );
        assert_eq!(
            intent(&mut t, &[status, 0x11, PRESS]),
            Some(Intent::TrackLoopOut { deck })
        );
        assert_eq!(t.translate(&[status, 0x10, RELEASE]), Translated::Nothing);
    }
}

#[test]
fn beat_loop_controls_drive_the_deck() {
    for (status, deck) in [(0x90, DeckId::A), (0x91, DeckId::B)] {
        let mut t = translator();
        assert_eq!(
            intent(&mut t, &[status, 0x51, PRESS]),
            Some(Intent::TrackLoopHalve { deck })
        );
        assert_eq!(
            intent(&mut t, &[status, 0x53, PRESS]),
            Some(Intent::TrackLoopDouble { deck })
        );
        assert_eq!(
            intent(&mut t, &[status, 0x4d, PRESS]),
            Some(Intent::TrackBeatLoop { deck, beats: 4 })
        );
        assert_eq!(t.translate(&[status, 0x4d, RELEASE]), Translated::Nothing);
    }
}

#[test]
fn sampler_pads_drive_loop_slots() {
    for (status, deck) in [(0x97, DeckId::A), (0x99, DeckId::B)] {
        let mut t = translator();
        for pad in 0..4u8 {
            assert_eq!(
                intent(&mut t, &[status, 0x30 + pad, PRESS]),
                Some(Intent::LoopPad { deck, index: pad })
            );
        }
        assert_eq!(t.translate(&[status, 0x30, RELEASE]), Translated::Nothing);
        assert_eq!(t.translate(&[status, 0x34, PRESS]), Translated::Nothing); // beyond slots
    }
}

#[test]
fn shift_plus_sampler_pad_clears_the_slot_release_restores() {
    for (shift_status, pad_status, deck) in
        [(0x90, 0x97, DeckId::A), (0x91, 0x99, DeckId::B)]
    {
        let mut t = translator();
        t.translate(&[shift_status, 0x3f, 0x7f]); // SHIFT down
        assert_eq!(
            intent(&mut t, &[pad_status, 0x31, PRESS]),
            Some(Intent::LoopClear { deck, index: 1 })
        );
        t.translate(&[shift_status, 0x3f, 0x00]); // SHIFT up
        assert_eq!(
            intent(&mut t, &[pad_status, 0x31, PRESS]),
            Some(Intent::LoopPad { deck, index: 1 })
        );
    }
}

#[test]
fn shift_layer_sampler_pads_clear_slots() {
    for (status, deck) in [(0x98, DeckId::A), (0x9a, DeckId::B)] {
        let mut t = translator();
        for pad in 0..4u8 {
            assert_eq!(
                intent(&mut t, &[status, 0x30 + pad, PRESS]),
                Some(Intent::LoopClear { deck, index: pad })
            );
        }
        assert_eq!(t.translate(&[status, 0x30, RELEASE]), Translated::Nothing);
        assert_eq!(t.translate(&[status, 0x34, PRESS]), Translated::Nothing);
        assert_eq!(t.translate(&[status, 0x10, PRESS]), Translated::Nothing);
    }
}

#[test]
fn beat_fx_press_toggles_recording() {
    for status in [0x94, 0x95] {
        let mut t = translator();
        assert_eq!(intent(&mut t, &[status, 0x47, PRESS]), Some(Intent::RecordToggle));
    }
}

#[test]
fn channel_cue_press_toggles_headphone_cue() {
    for (status, deck) in [(0x90, DeckId::A), (0x91, DeckId::B)] {
        let mut t = translator();
        assert_eq!(
            intent(&mut t, &[status, 0x54, PRESS]),
            Some(Intent::CueToggle { deck })
        );
        assert_eq!(t.translate(&[status, 0x54, RELEASE]), Translated::Nothing);
    }
}

#[test]
fn transport_cue_press_preps_the_deck() {
    for (status, deck) in [(0x90, DeckId::A), (0x91, DeckId::B)] {
        let mut t = translator();
        assert_eq!(
            intent(&mut t, &[status, 0x0c, PRESS]),
            Some(Intent::DeckPrep { deck })
        );
    }
}

#[test]
fn channel_fader_drives_volume_14bit() {
    for (status, deck) in [(0xb0, DeckId::A), (0xb1, DeckId::B)] {
        let mut t = translator();
        assert_eq!(
            intent(&mut t, &[status, 0x13, 0x7f]),
            Some(Intent::Volume { deck, value: 0x7f << 7 })
        );
        assert_eq!(
            intent(&mut t, &[status, 0x33, 0x7f]),
            Some(Intent::Volume { deck, value: 16383 })
        );
    }
}

#[test]
fn eq_ccs_drive_the_bands_on_both_decks() {
    for (msb, lsb, band) in [
        (0x07u8, 0x27u8, Band::High),
        (0x0b, 0x2b, Band::Mid),
        (0x0f, 0x2f, Band::Low),
    ] {
        for (status, deck) in [(0xb0, DeckId::A), (0xb1, DeckId::B)] {
            let mut t = translator();
            assert_eq!(
                intent(&mut t, &[status, msb, 0x40]),
                Some(Intent::Eq { deck, band, value: 0x40 << 7 })
            );
            assert_eq!(
                intent(&mut t, &[status, lsb, 0x00]),
                Some(Intent::Eq { deck, band, value: 0x2000 })
            );
        }
    }
}

#[test]
fn trim_knob_drives_deck_trim() {
    for (status, deck) in [(0xb0, DeckId::A), (0xb1, DeckId::B)] {
        let mut t = translator();
        assert_eq!(
            intent(&mut t, &[status, 0x04, 0x40]),
            Some(Intent::Trim { deck, value: 0x40 << 7 })
        );
        assert_eq!(
            intent(&mut t, &[status, 0x24, 0x00]),
            Some(Intent::Trim { deck, value: 0x2000 })
        );
    }
}

#[test]
fn crossfader_maps_to_master_crossfade() {
    let mut t = translator();
    assert_eq!(
        intent(&mut t, &[0xb6, 0x1f, 0x00]),
        Some(Intent::Crossfade { value: 0 })
    );
    assert_eq!(
        intent(&mut t, &[0xb6, 0x3f, 0x00]),
        Some(Intent::Crossfade { value: 0 })
    );
}

#[test]
fn smart_cfx_rides_color_fx() {
    for (msb, lsb, deck) in [(0x17u8, 0x37u8, DeckId::A), (0x18, 0x38, DeckId::B)] {
        let mut t = translator();
        assert_eq!(
            intent(&mut t, &[0xb6, msb, 0x20]),
            Some(Intent::FxAmount { deck, value: 0x20 << 7 })
        );
        assert_eq!(
            intent(&mut t, &[0xb6, lsb, 0x55]),
            Some(Intent::FxAmount {
                deck,
                value: (0x20 << 7) | 0x55
            })
        );
    }
}

#[test]
fn shift_plus_smart_cfx_sweeps_styles_release_restores_fx() {
    for (shift_status, cc, deck) in [(0x90, 0x17u8, DeckId::A), (0x91, 0x18, DeckId::B)] {
        let mut t = translator();
        t.translate(&[shift_status, 0x3f, 0x7f]); // SHIFT down
        assert_eq!(
            intent(&mut t, &[0xb6, cc, 0x20]),
            Some(Intent::StyleSweep { deck, value: 0x20 << 7 })
        );
        t.translate(&[shift_status, 0x3f, 0x00]); // SHIFT up
        assert_eq!(
            intent(&mut t, &[0xb6, cc, 0x20]),
            Some(Intent::FxAmount { deck, value: 0x20 << 7 })
        );
    }
}

#[test]
fn each_shift_pairs_with_its_own_deck_only() {
    let mut t = translator();
    t.translate(&[0x90, 0x3f, 0x7f]); // left SHIFT down
    assert!(matches!(
        intent(&mut t, &[0xb6, 0x18, 0x20]),
        Some(Intent::FxAmount { deck: DeckId::B, .. })
    ));
    assert!(matches!(
        intent(&mut t, &[0xb6, 0x17, 0x20]),
        Some(Intent::StyleSweep { deck: DeckId::A, .. })
    ));
}

#[test]
fn browse_rotary_ticks_are_signed_relative_steps() {
    let mut t = translator();
    assert_eq!(
        intent(&mut t, &[0xb6, 0x40, 0x01]),
        Some(Intent::BrowseScroll { steps: 1 })
    );
    assert_eq!(
        intent(&mut t, &[0xb6, 0x40, 0x02]),
        Some(Intent::BrowseScroll { steps: 2 })
    );
    assert_eq!(
        intent(&mut t, &[0xb6, 0x40, 0x7f]),
        Some(Intent::BrowseScroll { steps: -1 })
    );
    assert_eq!(
        intent(&mut t, &[0xb6, 0x40, 0x7e]),
        Some(Intent::BrowseScroll { steps: -2 })
    );
    assert_eq!(t.translate(&[0xb6, 0x40, 0x00]), Translated::Nothing);
}

#[test]
fn browse_ticks_never_pollute_the_msb_cache() {
    let mut t = translator();
    t.translate(&[0xb6, 0x40, 0x01]); // rotary tick
    // CC 0x60 would be 0x40's LSB if the rotary entered the cache.
    assert_eq!(t.translate(&[0xb6, 0x60, 0x10]), Translated::Nothing);
}

#[test]
fn load_buttons_load_the_deck() {
    for (note, deck) in [(0x46u8, DeckId::A), (0x47, DeckId::B)] {
        let mut t = translator();
        assert_eq!(
            intent(&mut t, &[0x96, note, PRESS]),
            Some(Intent::BrowseLoad { deck })
        );
        assert_eq!(t.translate(&[0x96, note, RELEASE]), Translated::Nothing);
    }
}

#[test]
fn rotary_press_cycles_the_explorer_tab() {
    let mut t = translator();
    assert_eq!(intent(&mut t, &[0x96, 0x41, PRESS]), Some(Intent::BrowseTab));
    assert_eq!(t.translate(&[0x96, 0x41, RELEASE]), Translated::Nothing);
}

#[test]
fn jog_turns_seek_relatively() {
    for status in [0xb0u8, 0xb1] {
        let deck = if status == 0xb0 { DeckId::A } else { DeckId::B };
        for cc in [0x21u8, 0x22, 0x23] {
            let mut t = translator();
            assert_eq!(
                intent(&mut t, &[status, cc, 0x41]),
                Some(Intent::TrackSeek { deck, steps: 1, shifted: false })
            );
            assert_eq!(
                intent(&mut t, &[status, cc, 0x3e]),
                Some(Intent::TrackSeek { deck, steps: -2, shifted: false })
            );
            assert_eq!(t.translate(&[status, cc, 0x40]), Translated::Nothing);
        }
    }
}

#[test]
fn tempo_slider_is_a_14bit_track_rate() {
    for (status, deck) in [(0xb0, DeckId::A), (0xb1, DeckId::B)] {
        let mut t = translator();
        assert_eq!(
            intent(&mut t, &[status, 0x00, 0x40]),
            Some(Intent::TrackRate { deck, value: 0x40 << 7 })
        );
        assert_eq!(
            intent(&mut t, &[status, 0x20, 0x10]),
            Some(Intent::TrackRate {
                deck,
                value: (0x40 << 7) | 0x10
            })
        );
    }
}

#[test]
fn shift_jog_rides_its_own_cc_and_marks_shifted() {
    for (status, deck) in [(0xb0, DeckId::A), (0xb1, DeckId::B)] {
        let mut t = translator();
        // No SHIFT note seen — the firmware encodes shift in the CC.
        assert_eq!(
            intent(&mut t, &[status, 0x29, 0x42]),
            Some(Intent::TrackSeek { deck, steps: 2, shifted: true })
        );
        assert_eq!(t.translate(&[status, 0x29, 0x40]), Translated::Nothing);
    }
}

#[test]
fn held_shift_marks_jog_ticks_for_scrubbing() {
    let mut t = translator();
    t.translate(&[0x90, 0x3f, PRESS]); // SHIFT down on deck a
    assert_eq!(
        intent(&mut t, &[0xb0, 0x21, 0x41]),
        Some(Intent::TrackSeek { deck: DeckId::A, steps: 1, shifted: true })
    );
    t.translate(&[0x90, 0x3f, RELEASE]);
    assert_eq!(
        intent(&mut t, &[0xb0, 0x21, 0x41]),
        Some(Intent::TrackSeek { deck: DeckId::A, steps: 1, shifted: false })
    );
}

#[test]
fn jog_ticks_never_pollute_the_msb_cache() {
    let mut t = translator();
    t.translate(&[0xb0, 0x21, 0x41]); // jog tick
    // CC 0x41 would be 0x21's LSB if the jog entered the cache.
    assert_eq!(t.translate(&[0xb0, 0x41, 0x10]), Translated::Nothing);
}

#[test]
fn headphones_mix_knob_maps_to_the_cue_blend() {
    let mut t = translator();
    assert_eq!(
        intent(&mut t, &[0xb6, 0x0c, 0x40]),
        Some(Intent::CueMix { value: 0x40 << 7 })
    );
    assert_eq!(
        intent(&mut t, &[0xb6, 0x2c, 0x10]),
        Some(Intent::CueMix { value: (0x40 << 7) | 0x10 })
    );
}

#[test]
fn msb_and_lsb_combine_into_the_full_resolution_value() {
    let mut t = translator();
    t.translate(&[0xb6, 0x1f, 0x7f]);
    assert_eq!(
        intent(&mut t, &[0xb6, 0x3f, 0x7f]),
        Some(Intent::Crossfade { value: 16383 })
    );
}

#[test]
fn an_lsb_before_any_msb_is_ignored() {
    let mut t = translator();
    assert_eq!(t.translate(&[0xb0, 0x33, 0x10]), Translated::Nothing);
}

#[test]
fn the_msb_cache_is_per_control_not_global() {
    let mut t = translator();
    t.translate(&[0xb0, 0x13, 0x7f]); // deck a volume MSB
    assert_eq!(t.translate(&[0xb1, 0x33, 0x10]), Translated::Nothing); // deck b volume LSB
    assert_eq!(t.translate(&[0xb0, 0x27, 0x10]), Translated::Nothing); // deck a EQ-high LSB
}

#[test]
fn a_fresh_msb_replaces_the_cached_one() {
    let mut t = translator();
    t.translate(&[0xb0, 0x13, 0x7f]);
    t.translate(&[0xb0, 0x33, 0x7f]);
    t.translate(&[0xb0, 0x13, 0x00]);
    assert_eq!(
        intent(&mut t, &[0xb0, 0x33, 0x01]),
        Some(Intent::Volume { deck: DeckId::A, value: 1 })
    );
}

#[test]
fn pad_mode_selector_presses_are_recognised_on_either_deck() {
    let mut t = translator();
    assert_eq!(
        t.translate(&[0x90, 0x1b, PRESS]),
        Translated::PadModeSwitch { deck: DeckId::A, keyboard: false }
    );
    assert_eq!(
        t.translate(&[0x91, 0x1e, PRESS]),
        Translated::PadModeSwitch { deck: DeckId::B, keyboard: false }
    );
    assert_eq!(
        t.translate(&[0x90, 0x6b, PRESS]),
        Translated::PadModeSwitch { deck: DeckId::A, keyboard: false }
    );
    assert_eq!(t.translate(&[0x90, 0x1b, RELEASE]), Translated::Nothing);
    // PLAY is not a selector; the pad channel's 0x1B is a pad, not a mode.
    assert_eq!(
        t.translate(&[0x90, 0x0b, PRESS]),
        Translated::Intent(Intent::PlayToggle { deck: DeckId::A })
    );
    assert_eq!(t.translate(&[0x97, 0x1b, PRESS]), Translated::Nothing);
    assert_eq!(t.translate(&[0x90, 0x1b]), Translated::Nothing);
}

#[test]
fn keyboard_selector_flags_the_performance_arm() {
    let mut t = translator();
    assert_eq!(
        t.translate(&[0x90, 0x69, PRESS]),
        Translated::PadModeSwitch { deck: DeckId::A, keyboard: true }
    );
    assert_eq!(
        t.translate(&[0x91, 0x69, PRESS]),
        Translated::PadModeSwitch { deck: DeckId::B, keyboard: true }
    );
}

#[test]
fn keyboard_bank_pads_report_both_edges_on_both_layers() {
    // Measured on the device (2026-07-03): plain pads on `97`/`99`,
    // and on the shift pad layer (`98`/`9A`) while SHIFT is held —
    // both map to the SAME pad, playing never requires SHIFT.
    for (status, deck) in [
        (0x97, DeckId::A),
        (0x99, DeckId::B),
        (0x98, DeckId::A),
        (0x9a, DeckId::B),
    ] {
        let mut t = translator();
        for pad in 0..8u8 {
            assert_eq!(
                t.translate(&[status, 0x40 + pad, PRESS]),
                Translated::PerformancePad { deck, pad, down: true }
            );
            assert_eq!(
                t.translate(&[status, 0x40 + pad, RELEASE]),
                Translated::PerformancePad { deck, pad, down: false }
            );
        }
    }
}

#[test]
fn a_shift_grab_mid_hold_cannot_stick_a_note() {
    // Press on the plain layer, SHIFT goes down, release arrives on the
    // shift layer: both edges must resolve to the same pad or the hold
    // never clears.
    let mut t = translator();
    assert_eq!(
        t.translate(&[0x97, 0x42, PRESS]),
        Translated::PerformancePad { deck: DeckId::A, pad: 2, down: true }
    );
    t.translate(&[0x90, 0x3f, PRESS]); // SHIFT down mid-hold
    assert_eq!(
        t.translate(&[0x98, 0x42, RELEASE]),
        Translated::PerformancePad { deck: DeckId::A, pad: 2, down: false }
    );
}

#[test]
fn deliberately_unmapped_traffic_is_ignored() {
    let mut t = translator();
    assert_eq!(t.translate(&[0xb0, 0x21, 0x40]), Translated::Nothing); // jog centre
    assert_eq!(t.translate(&[0xf8, 0x00, 0x00]), Translated::Nothing); // clock noise
}

#[test]
fn shift_held_state_surfaces_as_an_intent() {
    for (status, deck) in [(0x90, DeckId::A), (0x91, DeckId::B)] {
        let mut t = translator();
        assert_eq!(
            intent(&mut t, &[status, 0x3f, PRESS]),
            Some(Intent::Shift { deck, held: true })
        );
        assert_eq!(
            intent(&mut t, &[status, 0x3f, 0x00]),
            Some(Intent::Shift { deck, held: false })
        );
    }
}

#[test]
fn truncated_messages_are_ignored() {
    let mut t = translator();
    assert_eq!(t.translate(&[0xb0, 0x13]), Translated::Nothing);
    assert_eq!(t.translate(&[]), Translated::Nothing);
}

#[test]
fn a_held_shift_outlasts_other_messages_until_its_own_release() {
    let mut t = translator();
    t.translate(&[0x90, 0x3f, PRESS]); // deck A SHIFT down
    // Unrelated traffic: deck B SHIFT, a jog, a mapped fader, a button, a short message.
    t.translate(&[0x91, 0x3f, PRESS]);
    t.translate(&[0x91, 0x3f, RELEASE]);
    t.translate(&[0xb0, 0x21, 0x41]);
    t.translate(&[0xb0, 0x13, 0x40]);
    t.translate(&[0x90, 0x0b, PRESS]);
    t.translate(&[0x90]);
    assert_eq!(intent(&mut t, &[0xb6, 0x17, 0x10]), Some(Intent::StyleSweep { deck: DeckId::A, value: 0x10 << 7 }));
    assert_eq!(intent(&mut t, &[0x97, 0x32, PRESS]), Some(Intent::LoopClear { deck: DeckId::A, index: 2 }));
    t.translate(&[0x90, 0x3f, RELEASE]);
    assert_eq!(intent(&mut t, &[0xb6, 0x17, 0x10]), Some(Intent::FxAmount { deck: DeckId::A, value: 0x10 << 7 }));
    assert_eq!(intent(&mut t, &[0x97, 0x32, PRESS]), Some(Intent::LoopPad { deck: DeckId::A, index: 2 }));
}
