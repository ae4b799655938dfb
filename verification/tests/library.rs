use std::collections::HashSet;
use std::path::{Path, PathBuf};

use magenta_dj::library::{is_plain_file_name, is_audio_file, registry_path, safe_stem, title_from_file, unique_wav_path, MAX_STEM_CHARS};

#[test]
fn safe_stem_keeps_a_normal_take_name() {
    assert_eq!(safe_stem("late night dub #2", "song"), "late night dub #2");
}

#[test]
fn safe_stem_strips_path_separators() {
    // No separator may survive, so the sanitised name is always one path
    // component: the write boundary for an untrusted webview title.
    let stem = safe_stem("a/b\\c", "song");
    assert_eq!(stem, "a-b-c");
    assert!(!stem.contains('/') && !stem.contains('\\'));
}

#[test]
fn safe_stem_neutralises_traversal() {
    let stem = safe_stem("../../etc/passwd", "song");
    assert!(!stem.contains('/'), "separator survived: {stem}");
    assert!(!stem.contains(".."), "dot-dot survived: {stem}");
    assert_ne!(stem, "..");
}

#[test]
fn safe_stem_falls_back_when_empty() {
    assert_eq!(safe_stem("   ", "song"), "song");
    assert_eq!(safe_stem("", "sample"), "sample");
}

#[test]
fn safe_stem_caps_a_long_prompt_so_the_filename_fits() {
    // A pasted paragraph prompt must not produce an over-long filename; the
    // registry keeps the full text.
    let stem = safe_stem(&"hyperpop ballad ".repeat(400), "song");
    assert!(stem.chars().count() <= MAX_STEM_CHARS, "stem too long: {stem}");
    assert!(!stem.is_empty());
}

#[test]
fn unique_wav_path_suffixes_around_existing_takes() {
    let dir = Path::new("/lib");
    let taken: HashSet<PathBuf> = ["/lib/Take.wav", "/lib/Take (2).wav"].iter().map(PathBuf::from).collect();
    let path = unique_wav_path("/lib", "Take", |p: &str| taken.contains(Path::new(p))).unwrap();
    assert_eq!(PathBuf::from(path), dir.join("Take (3).wav"));
}

#[test]
fn unique_wav_path_gives_up_rather_than_clobber() {
    // Every candidate "exists": no free name, so the caller errors instead
    // of truncating an earlier take.
    assert!(unique_wav_path("/lib", "Take", |_: &str| true).is_none());
}

#[test]
fn safe_stem_trims_and_keeps_unicode_letters() {
    assert_eq!(safe_stem("  Café – mix.v2  ", "song"), "Café - mix-v2");
    assert_eq!(safe_stem("...", "song"), "---");
}

#[test]
fn safe_stem_caps_at_exactly_the_limit_and_retrims() {
    let long = format!("{}   tail", "a".repeat(MAX_STEM_CHARS - 2));
    let stem = safe_stem(&long, "song");
    // The cap lands inside the spaces, which the second trim removes.
    assert_eq!(stem, "a".repeat(MAX_STEM_CHARS - 2));
}

#[test]
fn unique_wav_path_takes_the_plain_name_when_free() {
    let path = unique_wav_path("/lib", "Fresh", |_: &str| false).unwrap();
    assert_eq!(PathBuf::from(path), Path::new("/lib").join("Fresh.wav"));
}

#[test]
fn unique_wav_path_counts_past_nine() {
    let taken: HashSet<String> = (1..=11)
        .map(|n| if n == 1 { "/lib/T.wav".to_string() } else { format!("/lib/T ({n}).wav") })
        .collect();
    let path = unique_wav_path("/lib", "T", |p: &str| taken.contains(p)).unwrap();
    assert_eq!(path, "/lib/T (12).wav");
}

#[test]
fn audio_files_are_recognised_by_extension_case_insensitively() {
    assert!(is_audio_file("/lib/take.wav"));
    assert!(is_audio_file("/lib/TAKE.FLAC"));
    assert!(is_audio_file("mix.Aiff"));
    assert!(!is_audio_file("/lib/registry.json"));
    assert!(!is_audio_file("/lib/noextension"));
    assert!(!is_audio_file("/lib/archive.wav.zip"));
}

#[test]
fn titles_drop_the_extension() {
    assert_eq!(title_from_file("mixtape.mp3"), "mixtape");
    assert_eq!(title_from_file("a.b.wav"), "a.b");
    assert_eq!(title_from_file("plain"), "plain");
}

#[test]
fn the_registry_lives_in_the_folder() {
    assert_eq!(PathBuf::from(registry_path("/lib")), Path::new("/lib").join("registry.json"));
}

#[test]
fn plain_file_names_are_one_normal_component() {
    for ok in ["take.wav", "late night dub #2.wav", "a/", "a//", "a/.", "a/./", ".hidden", "...", "a.b"] {
        assert!(is_plain_file_name(ok), "{ok}");
    }
    for bad in ["", ".", "..", "./a", "/a", "/", "a/b", "../a", "a/..", "a/...", "//a", "a/./b"] {
        assert!(!is_plain_file_name(bad), "{bad}");
    }
}

#[test]
fn plain_file_names_agree_with_path_components() {
    let names = [
        "take.wav", "a/", "a//", "a/.", ".hidden", "...", "", ".", "..", "./a", "/a", "a/b", "a/..", "a/...", ".//a",
        "a/./.", "..a", "a..", " ", "a\\b",
    ];
    for name in names {
        let mut comps = Path::new(name).components();
        let expected = matches!((comps.next(), comps.next()), (Some(std::path::Component::Normal(_)), None));
        assert_eq!(is_plain_file_name(name), expected, "{name}");
    }
}

#[test]
fn registry_paths_join_as_the_platform_does() {
    for dir in ["/lib", "/lib/", "lib", "", "/", "a//b", "./x"] {
        let expected = Path::new(dir).join("registry.json").to_string_lossy().into_owned();
        assert_eq!(registry_path(dir), expected, "{dir}");
    }
}

#[test]
fn titles_and_extensions_follow_the_platform_path_rules() {
    let paths = [
        "take.wav", "a/b/take.WAV", "a/b/", "a/b/.", "a/..", "..", ".", "", "/", "/x.mp3", ".hidden", ".hidden.flac",
        "a.b.c", "a.", "dir.d/file", "dir.d/file/", "x//y.ogg//", "./a.m4a", "a/./", "...", "a/...", "name.aiff/.",
        "tail.aif/./.", "/./", "./.", "..a", "a..",
    ];
    for path in paths {
        let ext = Path::new(path).extension().map(|e| e.to_str().unwrap().to_string());
        let audio = ext
            .as_deref()
            .map(|e| ["wav", "mp3", "flac", "m4a", "ogg", "aif", "aiff"].contains(&e.to_ascii_lowercase().as_str()))
            .unwrap_or(false);
        assert_eq!(is_audio_file(path), audio, "{path}");
        let stem = Path::new(path).file_stem().map(|s| s.to_str().unwrap().to_string());
        assert_eq!(title_from_file(path), stem.unwrap_or_else(|| path.to_string()), "{path}");
    }
}
