//! The player session: the playback controller and the playlist sequencer
//! wired together, with the once-per-frame poll that turns the backend's
//! "stream stopped" report into a playlist advance, and the remove request
//! that must not leave a session playing a deleted track.

use vstd::prelude::*;
use crate::controller::{BackendStatus, PlaybackController};
use crate::sequencer::PlaylistSequencer;

verus! {

/// A whole player: one controller, one sequencer, and the memory of
/// whether the session was audibly playing on the previous poll.
pub struct Player {
    pub controller: PlaybackController,
    pub sequencer: PlaylistSequencer,
    pub was_playing: bool,
}

impl Player {
    /// Whether the session was audibly playing when last polled. A track
    /// counts as finished only if it was: a freshly issued stop must not
    /// look like an ended track and trigger an advance.
    pub open spec fn spec_was_playing(self) -> bool {
        self.was_playing
    }

    /// A fresh player: empty controller, empty playlist.
    pub fn new() -> (p: Player)
        ensures
            p.controller.wf(),
            p.controller.spec_state() is Empty,
            p.controller.spec_track() is None,
            p.controller.spec_volume() == 0,
            p.sequencer.views() == Seq::<Seq<u8>>::empty(),
            p.sequencer.spec_loop_mode() is Off,
            !p.sequencer.spec_shuffle(),
            !p.spec_was_playing(),
    {
        Player {
            controller: PlaybackController::new(),
            sequencer: PlaylistSequencer::new(),
            was_playing: false,
        }
    }

    /// A player over existing parts, as after loading a persisted playlist.
    pub fn from_parts(controller: PlaybackController, sequencer: PlaylistSequencer) -> (p: Player)
        ensures
            p.controller == controller,
            p.sequencer == sequencer,
            !p.spec_was_playing(),
    {
        Player { controller, sequencer, was_playing: false }
    }

    /// The once-per-frame poll. The result says whether the current track
    /// just finished on its own — the backend reports its stream fully
    /// stopped although the session was audibly playing a frame ago — and
    /// the caller should therefore ask the sequencer for the next track.
    /// The poll also refreshes the playing memory and adopts the backend's
    /// reported position while confirmed playing.
    pub fn poll(&mut self, backend: BackendStatus, backend_ms: u64) -> (should_advance: bool)
        requires
            old(self).controller.wf(),
        ensures
            final(self).controller.wf(),
            should_advance == (old(self).spec_was_playing()
                && old(self).controller.spec_is_finished(backend)),
            final(self).spec_was_playing() == old(self).controller.spec_is_playing(backend),
            final(self).sequencer == old(self).sequencer,
            final(self).controller.spec_state() == old(self).controller.spec_state(),
            final(self).controller.spec_track() == old(self).controller.spec_track(),
            final(self).controller.spec_duration() == old(self).controller.spec_duration(),
            final(self).controller.spec_volume() == old(self).controller.spec_volume(),
            old(self).controller.spec_sync_hold() > 0 ==> {
                &&& final(self).controller.spec_position() == old(self).controller.spec_position()
                &&& final(self).controller.spec_sync_hold() == old(
                    self,
                ).controller.spec_sync_hold() - 1
            },
            old(self).controller.spec_sync_hold() == 0 ==> {
                &&& final(self).controller.spec_sync_hold() == 0
                &&& final(self).controller.spec_position() == (if old(
                    self,
                ).controller.spec_is_playing(backend) {
                    if backend_ms <= old(self).controller.spec_duration() {
                        backend_ms
                    } else {
                        old(self).controller.spec_duration()
                    }
                } else {
                    old(self).controller.spec_position()
                })
            },
    {
        let finished = self.controller.is_finished(backend);
        let should_advance = self.was_playing && finished;
        self.was_playing = self.controller.is_playing(backend);
        self.controller.sync_position(backend_ms, backend);
        should_advance
    }

    /// Deletes the playlist entry at `index`. If that entry is the track
    /// of the live session, the session is unloaded as well, so that
    /// nothing keeps playing a resource that is being removed: afterwards
    /// the controller is empty and remembers no track.
    pub fn remove_track(&mut self, index: usize) -> (was_current: bool)
        requires
            old(self).controller.wf(),
            index < old(self).sequencer.views().len(),
        ensures
            final(self).controller.wf(),
            final(self).sequencer.views() == old(self).sequencer.views().remove(index as int),
            final(self).sequencer.spec_loop_mode() == old(self).sequencer.spec_loop_mode(),
            final(self).sequencer.spec_shuffle() == old(self).sequencer.spec_shuffle(),
            was_current == (old(self).controller.spec_track() == Option::Some(
                old(self).sequencer.views()[index as int],
            )),
            was_current ==> {
                &&& final(self).controller.spec_state() is Empty
                &&& final(self).controller.spec_track() is None
                &&& final(self).controller.spec_volume() == old(self).controller.spec_volume()
            },
            !was_current ==> final(self).controller == old(self).controller,
            final(self).spec_was_playing() == old(self).spec_was_playing(),
    {
        let removed = self.sequencer.remove(index);
        let was_current = match self.controller.current_track() {
            Option::Some(t) => removed.same_as(t),
            Option::None => false,
        };
        if was_current {
            self.controller.unload();
        }
        was_current
    }
}

} // verus!
