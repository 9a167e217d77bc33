use kiraboshi::codec::{encode_playlist, fits_line, parse_playlist};
use kiraboshi::track::TrackId;

fn id(bytes: &[u8]) -> TrackId {
    TrackId::new(bytes.to_vec())
}

fn names(tracks: &[TrackId]) -> Vec<Vec<u8>> {
    tracks.iter().map(|t| t.bytes().clone()).collect()
}

#[test]
fn save_then_load_returns_identical_sequence() {
    let playlist = vec![id(b"data/one.mp3"), id(b"data/two.ogg"), id(b"three.flac")];
    let text = encode_playlist(&playlist);
    let back = parse_playlist(&text);
    assert_eq!(names(&back), names(&playlist));
}

#[test]
fn encode_joins_with_single_breaks_and_no_trailing_break() {
    let playlist = vec![id(b"a"), id(b"b")];
    assert_eq!(encode_playlist(&playlist), b"a\nb".to_vec());
    let single = vec![id(b"only")];
    assert_eq!(encode_playlist(&single), b"only".to_vec());
    let empty: Vec<TrackId> = Vec::new();
    assert_eq!(encode_playlist(&empty), Vec::<u8>::new());
}

#[test]
fn parse_drops_empty_lines() {
    let text = b"a\n\nb\n".to_vec();
    let back = parse_playlist(&text);
    assert_eq!(names(&back), vec![b"a".to_vec(), b"b".to_vec()]);
}

#[test]
fn parse_of_empty_text_is_an_empty_playlist() {
    let back = parse_playlist(&Vec::new());
    assert!(back.is_empty());
    let only_breaks = parse_playlist(&b"\n\n\n".to_vec());
    assert!(only_breaks.is_empty());
}

#[test]
fn fits_line_rejects_empty_and_broken_identifiers() {
    assert!(fits_line(&id(b"data/a.mp3")));
    assert!(!fits_line(&id(b"")));
    assert!(!fits_line(&id(b"bad\nname")));
}

#[test]
fn round_trip_of_a_long_playlist() {
    let playlist: Vec<TrackId> = (0..50)
        .map(|i| id(format!("data/track-{:03}.wav", i).as_bytes()))
        .collect();
    let back = parse_playlist(&encode_playlist(&playlist));
    assert_eq!(names(&back), names(&playlist));
}
