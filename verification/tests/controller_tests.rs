use kiraboshi::controller::{BackendStatus, LoadError, PlayAction, PlaybackController, TransportState};
use kiraboshi::track::TrackId;

fn id(bytes: &[u8]) -> TrackId {
    TrackId::new(bytes.to_vec())
}

#[test]
fn fresh_controller_is_empty() {
    let c = PlaybackController::new();
    assert!(matches!(c.state(), TransportState::Empty));
    assert!(c.current_track().is_none());
    assert_eq!(c.position(), 0);
    assert_eq!(c.duration(), 0);
    assert_eq!(c.volume(), 0);
}

#[test]
fn load_starts_playing_from_zero() {
    let mut c = PlaybackController::new();
    c.set_volume(500);
    let r = c.load(id(b"data/a.mp3"), Ok(180_000));
    assert!(r.is_ok());
    assert!(matches!(c.state(), TransportState::Playing));
    assert_eq!(c.duration(), 180_000);
    assert_eq!(c.position(), 0);
    assert_eq!(c.volume(), 500);
    assert_eq!(c.current_track().unwrap().bytes(), &b"data/a.mp3".to_vec());
}

#[test]
fn failed_load_leaves_no_session() {
    let mut c = PlaybackController::new();
    let r = c.load(id(b"data/a.mp3"), Err(LoadError::Undecodable));
    assert_eq!(r, Err(LoadError::Undecodable));
    assert!(matches!(c.state(), TransportState::Empty));
    assert_eq!(c.duration(), 0);
}

#[test]
fn failed_load_keeps_remembered_track() {
    let mut c = PlaybackController::new();
    c.load(id(b"data/a.mp3"), Ok(1000)).unwrap();
    let r = c.load(id(b"data/b.mp3"), Err(LoadError::Missing));
    assert_eq!(r, Err(LoadError::Missing));
    assert!(matches!(c.state(), TransportState::Empty));
    assert_eq!(c.current_track().unwrap().bytes(), &b"data/a.mp3".to_vec());
}

#[test]
fn stop_then_position_reads_zero() {
    let mut c = PlaybackController::new();
    c.load(id(b"t.ogg"), Ok(60_000)).unwrap();
    c.seek(42_000, None);
    assert_eq!(c.position(), 42_000);
    c.stop();
    assert_eq!(c.position(), 0);
    assert!(matches!(c.state(), TransportState::Stopped));
}

#[test]
fn stop_on_empty_controller_reads_zero() {
    let mut c = PlaybackController::new();
    let forward = c.stop();
    assert!(!forward);
    assert_eq!(c.position(), 0);
    assert!(matches!(c.state(), TransportState::Empty));
}

#[test]
fn play_from_stopped_rewinds_before_resuming() {
    let mut c = PlaybackController::new();
    c.load(id(b"t.ogg"), Ok(60_000)).unwrap();
    c.seek(42_000, None);
    c.stop();
    let action = c.play(BackendStatus::Paused);
    assert_eq!(action, PlayAction::RewindResume);
    assert_eq!(c.position(), 0);
    assert!(matches!(c.state(), TransportState::Playing));
}

#[test]
fn play_from_paused_resumes_in_place() {
    let mut c = PlaybackController::new();
    c.load(id(b"t.ogg"), Ok(60_000)).unwrap();
    c.seek(9_000, None);
    let forward = c.pause();
    assert!(forward);
    assert!(matches!(c.state(), TransportState::Paused));
    let action = c.play(BackendStatus::Paused);
    assert_eq!(action, PlayAction::Resume);
    assert_eq!(c.position(), 9_000);
    assert!(matches!(c.state(), TransportState::Playing));
}

#[test]
fn play_reloads_when_backend_reports_stream_gone() {
    let mut c = PlaybackController::new();
    c.load(id(b"t.ogg"), Ok(60_000)).unwrap();
    let action = c.play(BackendStatus::Stopped);
    assert_eq!(action, PlayAction::Reload);
}

#[test]
fn play_on_empty_with_remembered_track_asks_for_reload() {
    let mut c = PlaybackController::new();
    c.load(id(b"t.ogg"), Ok(60_000)).unwrap();
    c.load(id(b"u.ogg"), Err(LoadError::Missing)).unwrap_err();
    let action = c.play(BackendStatus::Stopped);
    assert_eq!(action, PlayAction::Reload);
    let mut fresh = PlaybackController::new();
    assert_eq!(fresh.play(BackendStatus::Stopped), PlayAction::Ignore);
}

#[test]
fn seek_with_remembered_track_pauses_at_position() {
    let mut c = PlaybackController::new();
    c.load(id(b"t.ogg"), Ok(60_000)).unwrap();
    c.load(id(b"u.ogg"), Err(LoadError::Unreadable)).unwrap_err();
    c.seek(7_500, Some(90_000));
    assert!(matches!(c.state(), TransportState::Paused));
    assert_eq!(c.position(), 7_500);
    assert_eq!(c.duration(), 90_000);
    assert!(!c.is_playing(BackendStatus::Playing));
}

#[test]
fn seek_clamps_to_duration() {
    let mut c = PlaybackController::new();
    c.load(id(b"t.ogg"), Ok(60_000)).unwrap();
    c.seek(90_000, None);
    assert_eq!(c.position(), 60_000);
}

#[test]
fn volume_readback_is_monotone_and_zero_is_silence() {
    let mut c = PlaybackController::new();
    let levels = [1u32, 10, 250, 1000, 1999, 2000];
    let mut previous = 0u32;
    c.set_volume(0);
    assert_eq!(c.volume(), 0);
    for level in levels {
        c.set_volume(level);
        assert_eq!(c.volume(), level);
        assert!(c.volume() > previous);
        previous = c.volume();
    }
}

#[test]
fn unload_clears_everything_but_volume() {
    let mut c = PlaybackController::new();
    c.set_volume(800);
    c.load(id(b"t.ogg"), Ok(60_000)).unwrap();
    let had = c.unload();
    assert!(had);
    assert!(matches!(c.state(), TransportState::Empty));
    assert!(c.current_track().is_none());
    assert_eq!(c.duration(), 0);
    assert_eq!(c.volume(), 800);
}

#[test]
fn is_playing_needs_logical_and_backend_agreement() {
    let mut c = PlaybackController::new();
    c.load(id(b"t.ogg"), Ok(60_000)).unwrap();
    assert!(c.is_playing(BackendStatus::Playing));
    assert!(c.is_playing(BackendStatus::Resuming));
    assert!(!c.is_playing(BackendStatus::Stopped));
    c.pause();
    assert!(!c.is_playing(BackendStatus::Playing));
}

#[test]
fn is_finished_needs_a_session() {
    let mut c = PlaybackController::new();
    assert!(!c.is_finished(BackendStatus::Stopped));
    c.load(id(b"t.ogg"), Ok(60_000)).unwrap();
    assert!(c.is_finished(BackendStatus::Stopped));
    assert!(c.is_finished(BackendStatus::Stopping));
    assert!(!c.is_finished(BackendStatus::Playing));
}

#[test]
fn stale_backend_reports_after_a_seek_are_held_off() {
    let mut c = PlaybackController::new();
    c.load(id(b"t.ogg"), Ok(60_000)).unwrap();
    c.sync_position(10_000, BackendStatus::Playing);
    assert_eq!(c.position(), 10_000);
    c.seek(40_000, None);
    assert_eq!(c.position(), 40_000);
    // The backend lags and keeps reporting the pre-seek position for a
    // few polls; the logical position must not jump back.
    for _ in 0..5 {
        c.sync_position(10_500, BackendStatus::Playing);
        assert_eq!(c.position(), 40_000);
    }
    // Once the hold is over, fresh reports are adopted again.
    c.sync_position(41_000, BackendStatus::Playing);
    assert_eq!(c.position(), 41_000);
}

#[test]
fn stale_backend_reports_after_a_rewind_are_held_off() {
    let mut c = PlaybackController::new();
    c.load(id(b"t.ogg"), Ok(60_000)).unwrap();
    c.sync_position(42_000, BackendStatus::Playing);
    c.stop();
    let action = c.play(BackendStatus::Paused);
    assert_eq!(action, PlayAction::RewindResume);
    assert_eq!(c.position(), 0);
    c.sync_position(42_000, BackendStatus::Playing);
    assert_eq!(c.position(), 0);
}

#[test]
fn sync_position_only_applies_while_playing() {
    let mut c = PlaybackController::new();
    c.load(id(b"t.ogg"), Ok(60_000)).unwrap();
    c.sync_position(12_000, BackendStatus::Playing);
    assert_eq!(c.position(), 12_000);
    c.stop();
    c.sync_position(30_000, BackendStatus::Playing);
    assert_eq!(c.position(), 0);
    c.sync_position(99_000, BackendStatus::Stopped);
    assert_eq!(c.position(), 0);
}
