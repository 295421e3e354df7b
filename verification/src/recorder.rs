//! The application's single recording slot: at most one recording runs at a
//! time, starting while one runs is refused, stopping is idempotent, and each
//! new recording's meeting id sorts after the previous one's.
//!
//! The slot holds the portable controller next to whatever platform session
//! feeds its file; the caller opens and tears down the devices.
use vstd::prelude::*;

use crate::audio::meeting_id::IdSource;
use crate::audio::AudioController;

verus! {

/// The slot for the live recording, if any.
pub struct RecordingSlot<S> {
    current: Option<(AudioController, S)>,
    ids: IdSource,
}

impl<S> RecordingSlot<S> {
    /// The live recording, if any.
    pub closed spec fn live(&self) -> Option<(AudioController, S)> {
        self.current
    }

    /// The meeting id of the last recording prepared in this slot, if any.
    pub closed spec fn last_id(&self) -> Option<Seq<char>> {
        self.ids.last_id()
    }

    /// An empty slot.
    pub fn new() -> (slot: RecordingSlot<S>)
        ensures
            slot.live() is None,
            slot.last_id() is None,
    {
        RecordingSlot { current: None, ids: IdSource::new() }
    }

    /// Whether a recording is live.
    pub fn is_recording(&self) -> (r: bool)
        ensures
            r == self.live() is Some,
    {
        self.current.is_some()
    }

    /// Prepare a new recording: `Err("already recording")` while one is live
    /// (nothing changes), otherwise a controller under the next meeting id,
    /// which sorts after the id of every recording prepared here before.
    pub fn prepare(&mut self) -> (r: Result<AudioController, String>)
        ensures
            r is Ok <==> old(self).live() is None,
            r matches Err(msg) ==> msg@ == "already recording"@ && final(self).last_id() == old(
                self,
            ).last_id(),
            r matches Ok(c) ==> {
                &&& crate::audio::meeting_id::is_meeting_id(c.id())
                &&& old(self).last_id() matches Some(prev) ==> crate::audio::meeting_id::id_precedes(
                    prev,
                    c.id(),
                )
                &&& final(self).last_id() == Some(c.id())
            },
            final(self).live() == old(self).live(),
    {
        if self.current.is_some() {
            Err(String::from_str("already recording"))
        } else {
            Ok(AudioController::new(&mut self.ids))
        }
    }

    /// Make a freshly started recording the live one and return its meeting id.
    pub fn install(&mut self, controller: AudioController, session: S) -> (id: String)
        requires
            old(self).live() is None,
        ensures
            final(self).live() == Some((controller, session)),
            final(self).last_id() == old(self).last_id(),
            id@ == controller.id(),
    {
        let id = String::from_str(controller.meeting_id());
        self.current = Some((controller, session));
        id
    }

    /// Take the live recording out of the slot, leaving it empty. When
    /// nothing is recording this returns `None` and changes nothing.
    pub fn take(&mut self) -> (r: Option<(AudioController, S)>)
        ensures
            r == old(self).live(),
            final(self).live() is None,
            final(self).last_id() == old(self).last_id(),
    {
        self.current.take()
    }
}

} // verus!
