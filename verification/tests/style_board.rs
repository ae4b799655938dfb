use magenta_dj::style_board::{preset_target_ok, StyleBoard, StyleChip, MAX_TARGETS};

fn texts(board: &StyleBoard) -> Vec<String> {
    board.chips().iter().map(|c| c.text.clone()).collect()
}

fn chip(text: &str) -> StyleChip {
    StyleChip { text: text.to_string(), sample: None }
}

#[test]
fn adding_trims_refuses_blanks_duplicates_and_a_full_pad() {
    let mut board = StyleBoard::new();
    assert!(board.add_target("  dub techno "));
    assert!(!board.add_target("dub techno"));
    assert!(!board.add_target("   "));
    assert!(!board.add_target(&"x".repeat(161)));
    assert!(board.add_target(&"x".repeat(160)));
    for i in 0..MAX_TARGETS {
        board.add_target(&format!("prompt {i}"));
    }
    assert_eq!(board.len(), MAX_TARGETS);
    assert!(!board.add_target("one too many"));
    assert_eq!(texts(&board)[0], "dub techno");
    assert_eq!(board.selection_mask().len(), MAX_TARGETS);
}

#[test]
fn the_byte_cap_counts_utf8_bytes() {
    let mut board = StyleBoard::new();
    // 80 two-byte characters are 160 bytes: in; 81 are 162: out.
    assert!(board.add_target(&"é".repeat(80)));
    assert!(!board.add_target(&"ü".repeat(81)));
}

#[test]
fn sampled_chips_are_keyed_on_their_label_and_never_renamed() {
    let mut board = StyleBoard::new();
    assert!(board.add_sample_target(" Deck B sample 1 ", "sample:b:1"));
    assert!(!board.add_sample_target("Deck B sample 1", "sample:b:2"));
    assert!(!board.add_sample_target("label", ""));
    assert!(!board.rename_target("Deck B sample 1", "renamed"));
    assert_eq!(board.chips()[0].sample.as_deref(), Some("sample:b:1"));
}

#[test]
fn rename_keeps_the_place_and_rejects_collisions() {
    let mut board = StyleBoard::new();
    board.add_target("a");
    board.add_target("b");
    board.toggle_selection("b");
    assert!(board.rename_target("b", "  c "));
    assert_eq!(texts(&board), vec!["a", "c"]);
    assert_eq!(board.selection_mask(), &[false, true]);
    assert!(!board.rename_target("c", "a"));
    assert!(board.rename_target("c", "c"));
    assert!(!board.rename_target("missing", "d"));
    assert!(!board.rename_target("a", " "));
}

#[test]
fn removal_keeps_the_selection_aligned() {
    let mut board = StyleBoard::new();
    board.add_target("a");
    board.add_target("b");
    board.add_target("c");
    board.toggle_selection("c");
    assert_eq!(board.remove_target("b"), Some(1));
    assert_eq!(texts(&board), vec!["a", "c"]);
    assert_eq!(board.selection_mask(), &[false, true]);
    assert_eq!(board.remove_target("b"), None);
    assert_eq!(board.find("c"), Some(1));
}

#[test]
fn a_worker_death_strips_sampled_chips_and_their_selection() {
    let mut board = StyleBoard::new();
    board.add_target("dub");
    board.add_sample_target("moment", "sample:a:1");
    board.add_target("techno");
    board.toggle_selection("moment");
    board.toggle_selection("techno");
    let kept = board.strip_samples();
    assert_eq!(kept, vec![true, false, true]);
    assert_eq!(texts(&board), vec!["dub", "techno"]);
    assert_eq!(board.selection_mask(), &[false, true]);
}

#[test]
fn a_preset_replaces_wholesale_capped_and_unselected() {
    let mut board = StyleBoard::new();
    board.add_target("old");
    board.toggle_selection("old");
    let targets: Vec<StyleChip> = (0..10).map(|i| chip(&format!("t{i}"))).collect();
    board.apply_preset(targets);
    assert_eq!(board.len(), MAX_TARGETS);
    assert_eq!(texts(&board)[7], "t7");
    assert!(board.selection_mask().iter().all(|s| !s));
}

#[test]
fn preset_targets_must_be_text_non_blank_and_capped() {
    assert!(preset_target_ok("warm pad", false));
    assert!(!preset_target_ok("warm pad", true));
    assert!(!preset_target_ok(" \t ", false));
    assert!(!preset_target_ok(&"x".repeat(161), false));
    // The cap counts the untrimmed text.
    assert!(!preset_target_ok(&format!("{} ", "x".repeat(160)), false));
}
