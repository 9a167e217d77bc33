//! The playback controller: a transport state machine layered over an
//! asynchronous audio backend.
//!
//! The backend (the process that decodes a resource and feeds the audio
//! device) reports its own playback status with a lag of one or more poll
//! cycles, so the controller keeps an explicit logical state as the source
//! of truth and treats the backend's report only as a hint. Commands update
//! the logical state here and tell the caller what to forward to the
//! backend; the outcome of a decode is handed back in as a plain value.
//!
//! Positions and durations are whole milliseconds; the requested volume is
//! a linear level in thousandths (0 ..= 2000, for linear gains 0.0 ..= 2.0).
//! The backend's logarithmic gain is derived from that level downstream.

use vstd::prelude::*;
use crate::track::TrackId;

verus! {

/// The largest accepted volume level: a linear gain of 2.0, in thousandths.
pub const MAX_VOLUME: u32 = 2000;

/// For how many polls a backend position report is ignored after the
/// playback head was moved by a command: the backend can lag that far
/// behind, and a stale report must not undo a seek or a rewind.
pub const SYNC_HOLD: u8 = 5;

/// The logical transport state of the controller.
///
/// `Stopped` is distinct from `Paused`: a stream still exists in both, but
/// a stopped stream is logically rewound to position zero, and resuming it
/// must rewind before playing rather than continue in place.
#[derive(Clone, Copy, PartialEq, Eq, Structural, Debug)]
pub enum TransportState {
    /// No track loaded.
    Empty,
    /// A stream is active and audibly advancing.
    Playing,
    /// A stream exists, frozen at its current position.
    Paused,
    /// A stream exists, logically reset to position zero.
    Stopped,
}

/// The playback status that the audio backend last reported of its stream.
/// It can lag behind commands already issued by the controller.
#[derive(Clone, Copy, PartialEq, Eq, Structural, Debug)]
pub enum BackendStatus {
    Playing,
    Pausing,
    Paused,
    Stopping,
    Stopped,
    Resuming,
}

/// Why a resource could not be opened and decoded.
#[derive(Clone, Copy, PartialEq, Eq, Structural, Debug)]
pub enum LoadError {
    /// The resource is missing.
    Missing,
    /// The resource exists but could not be read.
    Unreadable,
    /// The resource was read but could not be decoded.
    Undecodable,
}

/// What the caller must forward to the backend after a `play` command.
#[derive(Clone, Copy, PartialEq, Eq, Structural, Debug)]
pub enum PlayAction {
    /// Nothing to do.
    Ignore,
    /// Seek the stream to zero, then resume it.
    RewindResume,
    /// Resume the stream in place.
    Resume,
    /// Decode the remembered track again and call `load` with the outcome.
    Reload,
}

/// A backend report of an advancing stream.
pub open spec fn backend_advancing(b: BackendStatus) -> bool {
    b is Playing || b is Resuming
}

/// A backend report of a fully stopped (or stopping) stream.
pub open spec fn backend_halted(b: BackendStatus) -> bool {
    b is Stopped || b is Stopping
}

/// Owns the one active playback session and mediates transport commands
/// against the backend's asynchronous state.
pub struct PlaybackController {
    state: TransportState,
    remembered: Option<TrackId>,
    duration_ms: u64,
    position_ms: u64,
    volume: u32,
    sync_hold: u8,
}

impl PlaybackController {
    /// The logical transport state.
    pub closed spec fn spec_state(self) -> TransportState {
        self.state
    }

    /// The remembered track identifier: the track of the live session, or,
    /// with no session, the track a `play` or `seek` would load again.
    pub closed spec fn spec_track(self) -> Option<Seq<u8>> {
        match self.remembered {
            Option::Some(t) => Option::Some(t@),
            Option::None => Option::None,
        }
    }

    /// The cached duration of the loaded track, in milliseconds.
    pub closed spec fn spec_duration(self) -> u64 {
        self.duration_ms
    }

    /// The logical playback position, in milliseconds.
    pub closed spec fn spec_position(self) -> u64 {
        self.position_ms
    }

    /// The requested linear volume level, in thousandths.
    pub closed spec fn spec_volume(self) -> u32 {
        self.volume
    }

    /// How many more backend position reports are ignored because the
    /// playback head was just moved by a command.
    pub closed spec fn spec_sync_hold(self) -> u8 {
        self.sync_hold
    }

    /// Well-formedness: the volume is within range, the position never
    /// passes the duration, an empty controller holds no session data,
    /// and a live session always knows its track.
    pub open spec fn wf(self) -> bool {
        &&& self.spec_volume() <= MAX_VOLUME
        &&& self.spec_position() <= self.spec_duration()
        &&& self.spec_state() is Empty ==> self.spec_duration() == 0 && self.spec_position() == 0
        &&& !(self.spec_state() is Empty) ==> self.spec_track() is Some
    }

    /// Whether the session is audibly advancing: the logical state says
    /// playing and the backend confirms it. The conjunction guards against
    /// the one-frame lag where a just-stopped stream still reports playing,
    /// and the converse.
    pub open spec fn spec_is_playing(self, backend: BackendStatus) -> bool {
        self.spec_state() is Playing && backend_advancing(backend)
    }

    /// Whether the backend reports the stream of a live session fully
    /// stopped: the signal that the track has ended.
    pub open spec fn spec_is_finished(self, backend: BackendStatus) -> bool {
        !(self.spec_state() is Empty) && backend_halted(backend)
    }

    /// A fresh controller: no session, volume at the silence level.
    pub fn new() -> (c: PlaybackController)
        ensures
            c.wf(),
            c.spec_state() is Empty,
            c.spec_track() is None,
            c.spec_duration() == 0,
            c.spec_position() == 0,
            c.spec_volume() == 0,
            c.spec_sync_hold() == 0,
    {
        PlaybackController {
            state: TransportState::Empty,
            remembered: Option::None,
            duration_ms: 0,
            position_ms: 0,
            volume: 0,
            sync_hold: 0,
        }
    }

    /// Loads a track: the previous stream (if any) is torn down first, so
    /// the caller passes the outcome of decoding the new resource. On
    /// success the new session plays from zero at the configured volume and
    /// the track is remembered for future re-loads. On failure no session
    /// exists; the previously remembered track is kept.
    pub fn load(&mut self, track: TrackId, decoded: Result<u64, LoadError>) -> (r: Result<
        (),
        LoadError,
    >)
        requires
            old(self).wf(),
        ensures
            final(self).wf(),
            final(self).spec_volume() == old(self).spec_volume(),
            final(self).spec_sync_hold() == 0,
            match decoded {
                Result::Ok(d) => {
                    &&& r is Ok
                    &&& final(self).spec_state() is Playing
                    &&& final(self).spec_track() == Option::Some(track@)
                    &&& final(self).spec_duration() == d
                    &&& final(self).spec_position() == 0
                },
                Result::Err(e) => {
                    &&& r == Result::<(), LoadError>::Err(e)
                    &&& final(self).spec_state() is Empty
                    &&& final(self).spec_track() == old(self).spec_track()
                    &&& final(self).spec_duration() == 0
                    &&& final(self).spec_position() == 0
                },
            },
    {
        self.sync_hold = 0;
        match decoded {
            Result::Ok(d) => {
                self.state = TransportState::Playing;
                self.remembered = Option::Some(track);
                self.duration_ms = d;
                self.position_ms = 0;
                Result::Ok(())
            },
            Result::Err(e) => {
                self.state = TransportState::Empty;
                self.duration_ms = 0;
                self.position_ms = 0;
                Result::Err(e)
            },
        }
    }

    /// The play command. From `Stopped`, the session rewinds to zero and
    /// plays again; from `Paused`, it resumes in place. If the backend
    /// already reports the stream fully stopped while a session is live,
    /// or if no session exists but a track is remembered, the caller is
    /// told to decode that track again and `load` it. Otherwise a no-op.
    pub fn play(&mut self, backend: BackendStatus) -> (r: PlayAction)
        requires
            old(self).wf(),
        ensures
            final(self).wf(),
            final(self).spec_track() == old(self).spec_track(),
            final(self).spec_duration() == old(self).spec_duration(),
            final(self).spec_volume() == old(self).spec_volume(),
            old(self).spec_state() is Empty ==> {
                &&& *final(self) == *old(self)
                &&& r == (if old(self).spec_track() is Some {
                    PlayAction::Reload
                } else {
                    PlayAction::Ignore
                })
            },
            old(self).spec_state() is Stopped ==> {
                &&& r == PlayAction::RewindResume
                &&& final(self).spec_state() is Playing
                &&& final(self).spec_position() == 0
                &&& final(self).spec_sync_hold() == SYNC_HOLD
            },
            old(self).spec_state() is Paused ==> {
                &&& final(self).spec_position() == old(self).spec_position()
                &&& if backend_halted(backend) {
                    r == PlayAction::Reload && *final(self) == *old(self)
                } else {
                    &&& r == PlayAction::Resume
                    &&& final(self).spec_state() is Playing
                    &&& final(self).spec_sync_hold() == SYNC_HOLD
                }
            },
            old(self).spec_state() is Playing ==> {
                &&& *final(self) == *old(self)
                &&& r == (if backend_halted(backend) {
                    PlayAction::Reload
                } else {
                    PlayAction::Ignore
                })
            },
    {
        match self.state {
            TransportState::Empty => {
                if self.remembered.is_some() {
                    PlayAction::Reload
                } else {
                    PlayAction::Ignore
                }
            },
            TransportState::Stopped => {
                self.state = TransportState::Playing;
                self.position_ms = 0;
                self.sync_hold = SYNC_HOLD;
                PlayAction::RewindResume
            },
            TransportState::Paused => {
                if matches!(backend, BackendStatus::Stopped | BackendStatus::Stopping) {
                    PlayAction::Reload
                } else {
                    self.state = TransportState::Playing;
                    self.sync_hold = SYNC_HOLD;
                    PlayAction::Resume
                }
            },
            TransportState::Playing => {
                if matches!(backend, BackendStatus::Stopped | BackendStatus::Stopping) {
                    PlayAction::Reload
                } else {
                    PlayAction::Ignore
                }
            },
        }
    }

    /// The pause command: meaningful only while playing, where it freezes
    /// the session in place. The result says whether a stream exists that
    /// the caller should ask the backend to pause (best effort).
    pub fn pause(&mut self) -> (forward: bool)
        requires
            old(self).wf(),
        ensures
            final(self).wf(),
            forward == !(old(self).spec_state() is Empty),
            final(self).spec_track() == old(self).spec_track(),
            final(self).spec_duration() == old(self).spec_duration(),
            final(self).spec_position() == old(self).spec_position(),
            final(self).spec_volume() == old(self).spec_volume(),
            final(self).spec_sync_hold() == old(self).spec_sync_hold(),
            final(self).spec_state() == (if old(self).spec_state() is Playing {
                TransportState::Paused
            } else {
                old(self).spec_state()
            }),
    {
        if matches!(self.state, TransportState::Playing) {
            self.state = TransportState::Paused;
        }
        !matches!(self.state, TransportState::Empty)
    }

    /// The stop command: the session (if any) freezes and rewinds to zero.
    /// Afterwards the position reads zero whatever it was before. The
    /// result says whether the caller should ask the backend to pause and
    /// rewind its stream.
    pub fn stop(&mut self) -> (forward: bool)
        requires
            old(self).wf(),
        ensures
            final(self).wf(),
            forward == !(old(self).spec_state() is Empty),
            final(self).spec_track() == old(self).spec_track(),
            final(self).spec_duration() == old(self).spec_duration(),
            final(self).spec_volume() == old(self).spec_volume(),
            final(self).spec_sync_hold() == old(self).spec_sync_hold(),
            final(self).spec_position() == 0,
            final(self).spec_state() == (if old(self).spec_state() is Empty {
                TransportState::Empty
            } else {
                TransportState::Stopped
            }),
    {
        if matches!(self.state, TransportState::Empty) {
            false
        } else {
            self.state = TransportState::Stopped;
            self.position_ms = 0;
            true
        }
    }

    /// Unloads unconditionally: the session and the remembered track are
    /// gone; only the volume survives. The result says whether a stream
    /// existed that the caller should tear down.
    pub fn unload(&mut self) -> (had_stream: bool)
        requires
            old(self).wf(),
        ensures
            final(self).wf(),
            had_stream == !(old(self).spec_state() is Empty),
            final(self).spec_state() is Empty,
            final(self).spec_track() is None,
            final(self).spec_duration() == 0,
            final(self).spec_position() == 0,
            final(self).spec_volume() == old(self).spec_volume(),
            final(self).spec_sync_hold() == 0,
    {
        let had = !matches!(self.state, TransportState::Empty);
        self.state = TransportState::Empty;
        self.remembered = Option::None;
        self.duration_ms = 0;
        self.position_ms = 0;
        self.sync_hold = 0;
        had
    }

    /// The seek command: with a live session, the playback head moves to
    /// the requested position, clamped to the duration, and the transport
    /// state is untouched. With no session but a remembered track, the
    /// caller passes the outcome of decoding that track; on success the
    /// session comes up paused at the sought position, so scrubbing before
    /// playback has started does not begin audible playback.
    pub fn seek(&mut self, pos_ms: u64, decoded: Option<u64>)
        requires
            old(self).wf(),
        ensures
            final(self).wf(),
            final(self).spec_track() == old(self).spec_track(),
            final(self).spec_volume() == old(self).spec_volume(),
            !(old(self).spec_state() is Empty) ==> {
                &&& final(self).spec_state() == old(self).spec_state()
                &&& final(self).spec_duration() == old(self).spec_duration()
                &&& final(self).spec_sync_hold() == SYNC_HOLD
                &&& final(self).spec_position() == (if pos_ms <= old(self).spec_duration() {
                    pos_ms
                } else {
                    old(self).spec_duration()
                })
            },
            old(self).spec_state() is Empty ==> match decoded {
                Option::Some(d) => {
                    if old(self).spec_track() is Some {
                        &&& final(self).spec_state() is Paused
                        &&& final(self).spec_duration() == d
                        &&& final(self).spec_sync_hold() == SYNC_HOLD
                        &&& final(self).spec_position() == (if pos_ms <= d {
                            pos_ms
                        } else {
                            d
                        })
                    } else {
                        *final(self) == *old(self)
                    }
                },
                Option::None => *final(self) == *old(self),
            },
    {
        if !matches!(self.state, TransportState::Empty) {
            self.position_ms = if pos_ms <= self.duration_ms {
                pos_ms
            } else {
                self.duration_ms
            };
            self.sync_hold = SYNC_HOLD;
        } else if self.remembered.is_some() {
            if let Option::Some(d) = decoded {
                self.state = TransportState::Paused;
                self.duration_ms = d;
                self.position_ms = if pos_ms <= d {
                    pos_ms
                } else {
                    d
                };
                self.sync_hold = SYNC_HOLD;
            }
        }
    }

    /// The controller with the requested linear volume level stored and
    /// everything else as it was: what `set_volume` leaves behind.
    pub closed spec fn with_volume(self, level: u32) -> PlaybackController {
        PlaybackController { volume: level, ..self }
    }

    /// Stores the requested linear volume level. It applies to the live
    /// stream and to every future `load`. The logarithmic gain the backend
    /// wants is derived from this level downstream; a zero level is the one
    /// that maps to the silence floor.
    pub fn set_volume(&mut self, level: u32)
        requires
            old(self).wf(),
            level <= MAX_VOLUME,
        ensures
            final(self).wf(),
            final(self).spec_volume() == level,
            final(self).spec_state() == old(self).spec_state(),
            final(self).spec_track() == old(self).spec_track(),
            final(self).spec_duration() == old(self).spec_duration(),
            final(self).spec_position() == old(self).spec_position(),
            *final(self) == old(self).with_volume(level),
    {
        self.volume = level;
    }

    /// Adopts the backend's reported position, but only while the session
    /// is confirmed playing and no position-moving command was issued
    /// within the last `SYNC_HOLD` polls: a lagging report never
    /// overwrites the logical position of a session that was just
    /// stopped, sought, or rewound.
    pub fn sync_position(&mut self, backend_ms: u64, backend: BackendStatus)
        requires
            old(self).wf(),
        ensures
            final(self).wf(),
            final(self).spec_state() == old(self).spec_state(),
            final(self).spec_track() == old(self).spec_track(),
            final(self).spec_duration() == old(self).spec_duration(),
            final(self).spec_volume() == old(self).spec_volume(),
            old(self).spec_sync_hold() > 0 ==> {
                &&& final(self).spec_position() == old(self).spec_position()
                &&& final(self).spec_sync_hold() == old(self).spec_sync_hold() - 1
            },
            old(self).spec_sync_hold() == 0 ==> {
                &&& final(self).spec_sync_hold() == 0
                &&& final(self).spec_position() == (if old(self).spec_is_playing(backend) {
                    if backend_ms <= old(self).spec_duration() {
                        backend_ms
                    } else {
                        old(self).spec_duration()
                    }
                } else {
                    old(self).spec_position()
                })
            },
    {
        if self.sync_hold > 0 {
            self.sync_hold = self.sync_hold - 1;
        } else if self.is_playing(backend) {
            self.position_ms = if backend_ms <= self.duration_ms {
                backend_ms
            } else {
                self.duration_ms
            };
        }
    }

    /// Whether the session is audibly advancing (see `spec_is_playing`).
    pub fn is_playing(&self, backend: BackendStatus) -> (r: bool)
        ensures
            r == self.spec_is_playing(backend),
    {
        matches!(self.state, TransportState::Playing) && matches!(
            backend,
            BackendStatus::Playing | BackendStatus::Resuming,
        )
    }

    /// Whether a live session's stream is reported fully stopped by the
    /// backend (see `spec_is_finished`).
    pub fn is_finished(&self, backend: BackendStatus) -> (r: bool)
        ensures
            r == self.spec_is_finished(backend),
    {
        !matches!(self.state, TransportState::Empty) && matches!(
            backend,
            BackendStatus::Stopped | BackendStatus::Stopping,
        )
    }

    /// The logical transport state.
    pub fn state(&self) -> (r: TransportState)
        ensures
            r == self.spec_state(),
    {
        self.state
    }

    /// The remembered track identifier, if any.
    pub fn current_track(&self) -> (r: Option<&TrackId>)
        ensures
            match r {
                Option::Some(t) => self.spec_track() == Option::Some(t@),
                Option::None => self.spec_track() is None,
            },
    {
        self.remembered.as_ref()
    }

    /// The logical playback position, in milliseconds.
    pub fn position(&self) -> (r: u64)
        ensures
            r == self.spec_position(),
    {
        self.position_ms
    }

    /// The cached duration of the loaded track, in milliseconds.
    pub fn duration(&self) -> (r: u64)
        ensures
            r == self.spec_duration(),
    {
        self.duration_ms
    }

    /// The stored linear volume level, in thousandths.
    pub fn volume(&self) -> (r: u32)
        ensures
            r == self.spec_volume(),
    {
        self.volume
    }
}

/// Setting the volume and reading it back is monotone in the requested
/// linear level, and the zero level is the one stored for silence. The
/// backend's logarithmic gain is derived downstream by a map that is
/// itself strictly increasing in the linear level, so this order carries
/// through to the gain the stream is given.
pub proof fn lemma_volume_readback_monotone(c: PlaybackController, v1: u32, v2: u32)
    requires
        v1 < v2,
        v2 <= MAX_VOLUME,
    ensures
        c.with_volume(v1).spec_volume() < c.with_volume(v2).spec_volume(),
        c.with_volume(0).spec_volume() == 0,
{
}

} // verus!
