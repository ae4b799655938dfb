use magenta_dj::songs::{forgotten, reconcile, recorded, song_entry, NewSong, SongEntry, SongLibrary};

fn entry(file: &str, model: Option<&str>) -> SongEntry {
    SongEntry {
        file: file.to_string(),
        title: file.trim_end_matches(".wav").to_string(),
        prompt: model.map(|_| "a prompt".to_string()),
        model: model.map(str::to_string),
    }
}

#[test]
fn reconcile_keeps_known_entries_in_order_and_drops_missing() {
    let existing = vec![entry("first.wav", Some("track")), entry("gone.wav", Some("sfx"))];
    let disk = vec!["first.wav".to_string()];
    let out = reconcile(existing, &disk);
    assert_eq!(out.len(), 1);
    assert_eq!(out[0].file, "first.wav");
    assert_eq!(out[0].model.as_deref(), Some("track"));
}

#[test]
fn reconcile_adds_hand_dropped_files_with_no_model() {
    let existing = vec![entry("first.wav", Some("track"))];
    let disk = vec!["first.wav".to_string(), "mixtape.mp3".to_string()];
    let out = reconcile(existing, &disk);
    assert_eq!(out.len(), 2);
    // The known entry keeps its provenance and its place…
    assert_eq!(out[0].file, "first.wav");
    // …and the hand-dropped file is appended with no prompt/model.
    assert_eq!(out[1].file, "mixtape.mp3");
    assert_eq!(out[1].title, "mixtape");
    assert!(out[1].prompt.is_none());
    assert!(out[1].model.is_none());
}

#[test]
fn reconcile_keeps_registry_order_not_disk_order() {
    let existing = vec![entry("b.wav", Some("track")), entry("a.wav", Some("track"))];
    let disk = vec!["a.wav".to_string(), "b.wav".to_string(), "c.wav".to_string()];
    let out = reconcile(existing, &disk);
    let files: Vec<&str> = out.iter().map(|e| e.file.as_str()).collect();
    assert_eq!(files, vec!["b.wav", "a.wav", "c.wav"]);
    assert_eq!(out[2].title, "c");
}

#[test]
fn recording_replaces_an_older_entry_for_the_same_file() {
    let entries = vec![entry("take.wav", Some("old")), entry("other.wav", None)];
    let fresh = song_entry(
        "take.wav".to_string(),
        NewSong { title: "Take".to_string(), prompt: "dub".to_string(), model: "track".to_string() },
    );
    let out = recorded(entries, fresh);
    assert_eq!(out.len(), 2);
    assert_eq!(out[0].file, "other.wav");
    assert_eq!(out[1].file, "take.wav");
    assert_eq!(out[1].title, "Take");
    assert_eq!(out[1].prompt.as_deref(), Some("dub"));
    assert_eq!(out[1].model.as_deref(), Some("track"));
}

#[test]
fn forgetting_drops_only_the_named_file() {
    let entries = vec![entry("a.wav", None), entry("b.wav", None), entry("a.wav", Some("x"))];
    let out = forgotten(entries, "a.wav");
    assert_eq!(out.len(), 1);
    assert_eq!(out[0].file, "b.wav");
}

#[test]
fn a_take_path_uses_the_safe_stem_in_the_folder() {
    let lib = SongLibrary::new("/songs".to_string());
    assert_eq!(lib.dir(), "/songs");
    let path = lib.take_path("../evil/name", |p: &str| p.ends_with("---evil-name.wav")).unwrap();
    assert_eq!(path, "/songs/---evil-name (2).wav");
    let path = lib.take_path("   ", |_: &str| false).unwrap();
    assert_eq!(path, "/songs/song.wav");
}
