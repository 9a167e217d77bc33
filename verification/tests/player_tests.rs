use kiraboshi::controller::{BackendStatus, TransportState};
use kiraboshi::player::Player;
use kiraboshi::track::TrackId;

fn id(bytes: &[u8]) -> TrackId {
    TrackId::new(bytes.to_vec())
}

#[test]
fn removing_the_playing_track_clears_the_session() {
    let mut p = Player::new();
    p.sequencer.add(id(b"a.mp3"));
    p.sequencer.add(id(b"b.mp3"));
    p.controller.load(id(b"a.mp3"), Ok(30_000)).unwrap();
    let was_current = p.remove_track(0);
    assert!(was_current);
    assert!(p.controller.current_track().is_none());
    assert!(matches!(p.controller.state(), TransportState::Empty));
    assert_eq!(p.sequencer.len(), 1);
    assert_eq!(p.sequencer.get(0).bytes(), &b"b.mp3".to_vec());
}

#[test]
fn removing_another_track_leaves_the_session_alone() {
    let mut p = Player::new();
    p.sequencer.add(id(b"a.mp3"));
    p.sequencer.add(id(b"b.mp3"));
    p.controller.load(id(b"a.mp3"), Ok(30_000)).unwrap();
    let was_current = p.remove_track(1);
    assert!(!was_current);
    assert_eq!(p.controller.current_track().unwrap().bytes(), &b"a.mp3".to_vec());
    assert!(matches!(p.controller.state(), TransportState::Playing));
}

#[test]
fn poll_reports_a_finished_track_only_after_a_playing_frame() {
    let mut p = Player::new();
    p.controller.load(id(b"a.mp3"), Ok(30_000)).unwrap();
    // First frame: the session plays; nothing has finished.
    assert!(!p.poll(BackendStatus::Playing, 1_000));
    assert_eq!(p.controller.position(), 1_000);
    // The backend now reports the stream fully stopped: the track ended.
    assert!(p.poll(BackendStatus::Stopped, 0));
}

#[test]
fn poll_does_not_treat_a_fresh_stop_as_a_finished_track() {
    let mut p = Player::new();
    p.controller.load(id(b"a.mp3"), Ok(30_000)).unwrap();
    assert!(!p.poll(BackendStatus::Playing, 1_000));
    // The user stops: the stream is asked to pause and rewind, and the
    // backend lags behind, still reporting a pausing stream. That report
    // is no finished-track event, and no advance is triggered.
    p.controller.stop();
    assert!(!p.poll(BackendStatus::Pausing, 5_000));
    assert!(!p.poll(BackendStatus::Paused, 5_000));
    assert_eq!(p.controller.position(), 0);
}

#[test]
fn a_finished_track_advances_to_the_next_playlist_entry() {
    let mut p = Player::new();
    p.sequencer.add(id(b"a.mp3"));
    p.sequencer.add(id(b"b.mp3"));
    p.controller.load(id(b"a.mp3"), Ok(30_000)).unwrap();
    assert!(!p.poll(BackendStatus::Playing, 29_000));
    assert!(p.poll(BackendStatus::Stopped, 30_000));
    let current = p.controller.current_track().map(|t| t.duplicate());
    let decision = p.sequencer.advance_with(current.as_ref(), 0);
    assert_eq!(decision, kiraboshi::sequencer::AdvanceDecision::Load(1));
    let next = p.sequencer.get(1).duplicate();
    p.controller.load(next, Ok(45_000)).unwrap();
    assert_eq!(p.controller.current_track().unwrap().bytes(), &b"b.mp3".to_vec());
    assert_eq!(p.controller.position(), 0);
}

#[test]
fn seek_on_a_player_with_nothing_remembered_is_a_no_op() {
    let mut p = Player::new();
    p.controller.seek(5_000, Some(10_000));
    assert!(matches!(p.controller.state(), TransportState::Empty));
    assert_eq!(p.controller.position(), 0);
    assert_eq!(p.controller.duration(), 0);
}

#[test]
fn poll_keeps_logical_position_while_not_playing() {
    let mut p = Player::new();
    p.controller.load(id(b"a.mp3"), Ok(30_000)).unwrap();
    p.controller.seek(12_000, None);
    p.controller.pause();
    assert!(!p.poll(BackendStatus::Playing, 25_000));
    assert_eq!(p.controller.position(), 12_000);
}
