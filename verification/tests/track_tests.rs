use kiraboshi::track::TrackId;

fn id(bytes: &[u8]) -> TrackId {
    TrackId::new(bytes.to_vec())
}

#[test]
fn identifiers_compare_by_bytes() {
    let a = id(b"data/a.mp3");
    let b = id(b"data/a.mp3");
    let c = id(b"data/b.mp3");
    assert!(a.same_as(&b));
    assert!(!a.same_as(&c));
    assert!(!a.same_as(&id(b"data/a.mp")));
}

#[test]
fn duplicate_preserves_the_bytes() {
    let a = id(b"data/a.mp3");
    let d = a.duplicate();
    assert!(a.same_as(&d));
    assert_eq!(d.bytes(), &b"data/a.mp3".to_vec());
}

#[test]
fn display_name_is_the_file_stem() {
    assert_eq!(id(b"data/song.mp3").display_name(), b"song".to_vec());
    assert_eq!(id(b"song.mp3").display_name(), b"song".to_vec());
    assert_eq!(id(b"a/b/c/tune.older.flac").display_name(), b"tune.older".to_vec());
    assert_eq!(id(b"data\\win.wav").display_name(), b"win".to_vec());
    assert_eq!(id(b"plain").display_name(), b"plain".to_vec());
}

#[test]
fn display_name_keeps_a_leading_dot() {
    assert_eq!(id(b"data/.hidden").display_name(), b".hidden".to_vec());
}

#[test]
fn display_name_ignores_trailing_separators() {
    assert_eq!(id(b"data/").display_name(), b"data".to_vec());
    assert_eq!(id(b"a/b/song.mp3/").display_name(), b"song".to_vec());
    assert_eq!(id(b"data\\\\").display_name(), b"data".to_vec());
}

#[test]
fn display_name_without_a_file_name_is_the_placeholder() {
    assert_eq!(id(b"").display_name(), b"Unknown".to_vec());
    assert_eq!(id(b"/").display_name(), b"Unknown".to_vec());
    assert_eq!(id(b".").display_name(), b"Unknown".to_vec());
    assert_eq!(id(b"..").display_name(), b"Unknown".to_vec());
    assert_eq!(id(b"data/..").display_name(), b"Unknown".to_vec());
}

#[test]
fn audio_files_are_recognised_by_extension() {
    assert!(id(b"data/a.mp3").is_audio_file());
    assert!(id(b"data/b.WAV").is_audio_file());
    assert!(id(b"c.Ogg").is_audio_file());
    assert!(id(b"d.FLAC").is_audio_file());
    assert!(!id(b"notes.txt").is_audio_file());
    assert!(!id(b"noext").is_audio_file());
    assert!(!id(b"data/.flac").is_audio_file());
    assert!(!id(b"trailing.").is_audio_file());
    assert!(!id(b"data/").is_audio_file());
    assert!(!id(b"..").is_audio_file());
}
