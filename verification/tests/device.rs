use magenta_dj::device::{spread, 
    buffer_frames, output_device_info, pick_config, routing, ChosenConfig, ConfigRange, DefaultConfig, Routing,
};

fn range(channels: u16, is_f32: bool, min_rate: u32, max_rate: u32) -> ConfigRange {
    ConfigRange { channels, is_f32, min_rate, max_rate }
}

#[test]
fn the_widest_48k_f32_config_wins() {
    let ranges = [range(2, true, 44100, 48000), range(4, true, 48000, 96000), range(8, false, 48000, 48000)];
    assert_eq!(pick_config(&ranges, None), Some(ChosenConfig { channels: 4, rate: 48000 }));
}

#[test]
fn without_48k_the_usable_default_is_taken_at_its_own_rate() {
    let ranges = [range(2, true, 44100, 44100)];
    let default = DefaultConfig { channels: 2, is_f32: true, rate: 44100 };
    assert_eq!(pick_config(&ranges, Some(default)), Some(ChosenConfig { channels: 2, rate: 44100 }));
}

#[test]
fn the_last_resort_is_the_nearest_rate_then_the_widest_then_the_first() {
    let ranges = [range(2, true, 22050, 22050), range(2, true, 44100, 44100), range(6, true, 44100, 44100)];
    let default = DefaultConfig { channels: 1, is_f32: true, rate: 44100 };
    assert_eq!(pick_config(&ranges, Some(default)), Some(ChosenConfig { channels: 6, rate: 44100 }));
    // Equal distance and width: the first one listed.
    let ranges = [range(2, true, 44100, 44100), range(2, true, 51900, 52000)];
    assert_eq!(pick_config(&ranges, None), Some(ChosenConfig { channels: 2, rate: 44100 }));
}

#[test]
fn no_usable_config_means_no_device() {
    let ranges = [range(1, true, 48000, 48000), range(2, false, 48000, 48000)];
    assert_eq!(pick_config(&ranges, None), None);
    assert_eq!(pick_config(&[], None), None);
}

#[test]
fn a_four_channel_device_carries_the_cue() {
    let info = output_device_info("DDJ-FLX4".to_string(), 4);
    assert!(info.cue_capable);
    assert!(!output_device_info("Speakers".to_string(), 2).cue_capable);
}

#[test]
fn the_buffer_request_is_clamped_to_the_device_range() {
    assert_eq!(buffer_frames(None), 256);
    assert_eq!(buffer_frames(Some((512, 1024))), 512);
    assert_eq!(buffer_frames(Some((16, 128))), 128);
    assert_eq!(buffer_frames(Some((64, 4096))), 256);
}

#[test]
fn feeds_land_on_their_channels() {
    assert_eq!(routing(4, true, false), Routing { primary_offset: 0, secondary_offset: Some(2) });
    assert_eq!(routing(2, true, false), Routing { primary_offset: 0, secondary_offset: None });
    assert_eq!(routing(4, false, true), Routing { primary_offset: 2, secondary_offset: None });
    assert_eq!(routing(4, true, true), Routing { primary_offset: 0, secondary_offset: Some(2) });
    assert_eq!(routing(2, false, true), Routing { primary_offset: 0, secondary_offset: None });
}

#[test]
fn spread_offset_0_lands_on_channels_1_2() {
    let src = [0.1f32, 0.2, 0.3, 0.4]; // two stereo frames
    let dev_ch = 4;
    let mut data = vec![9.0f32; 2 * dev_ch]; // pre-fill to prove zeroing
    spread(&mut data, 0.0, dev_ch, &[(0, &src[..])]);
    assert_eq!(data, vec![0.1, 0.2, 0.0, 0.0, 0.3, 0.4, 0.0, 0.0]);
}

#[test]
fn spread_offset_2_lands_on_channels_3_4() {
    let cue = [0.7f32, 0.8]; // one stereo frame
    let dev_ch = 4;
    let mut data = vec![9.0f32; dev_ch];
    spread(&mut data, 0.0, dev_ch, &[(2, &cue[..])]);
    assert_eq!(data, vec![0.0, 0.0, 0.7, 0.8]);
}

#[test]
fn spread_zeroes_frames_past_the_source() {
    let src = [0.5f32, 0.6]; // one stereo frame only
    let dev_ch = 2;
    let mut data = vec![9.0f32; 2 * dev_ch]; // two frames
    spread(&mut data, 0.0, dev_ch, &[(0, &src[..])]);
    assert_eq!(data, vec![0.5, 0.6, 0.0, 0.0]);
}

#[test]
fn spread_combined_lands_master_1_2_cue_3_4() {
    let master = [0.1f32, 0.2]; // one stereo frame
    let cue = [0.7f32, 0.8];
    let dev_ch = 6;
    let mut data = vec![9.0f32; dev_ch];
    spread(&mut data, 0.0, dev_ch, &[(0, &master[..]), (2, &cue[..])]);
    assert_eq!(data, vec![0.1, 0.2, 0.7, 0.8, 0.0, 0.0]);
}

#[test]
fn spread_combined_silences_a_short_placement_only() {
    let master = [0.1f32, 0.2, 0.3, 0.4]; // two frames
    let cue = [0.7f32, 0.8]; // one frame: the second frame's cue runs dry
    let dev_ch = 4;
    let mut data = vec![9.0f32; 2 * dev_ch];
    spread(&mut data, 0.0, dev_ch, &[(0, &master[..]), (2, &cue[..])]);
    assert_eq!(
        data,
        vec![0.1, 0.2, 0.7, 0.8, 0.3, 0.4, 0.0, 0.0],
        "frame 0 carries master+cue; frame 1 carries master with cue zeroed",
    );
}

#[test]
fn spread_leaves_a_trailing_partial_frame_and_ignores_an_offset_past_the_device() {
    let src = [1u8, 2, 3, 4];
    let mut data = vec![9u8; 5]; // two 2-channel frames and one stray sample
    spread(&mut data, 0, 2, &[(1, &src[..])]); // channels 2/3 do not exist
    assert_eq!(data, vec![0, 0, 0, 0, 9]);
    let mut data = vec![9u8; 5];
    spread(&mut data, 0, 2, &[(0, &src[..])]);
    assert_eq!(data, vec![1, 2, 3, 4, 9]);
}
