//! Audio capture building blocks: stream identities, the recording
//! controller, meeting ids, the mixing timeline and the WAV container.
use vstd::prelude::*;

pub mod meeting_id;
pub mod mixer;
pub mod wav_writer;

verus! {

/// Output sample rate of the mixed recording (16 kHz, what the transcriber consumes).
pub const TARGET_SAMPLE_RATE: u32 = 16000;

/// Output channel count of the mixed recording (mono).
pub const TARGET_CHANNELS: u16 = 1;

/// Which physical stream a captured frame came from.
#[derive(Debug, Clone, Copy, PartialEq, Eq, Structural, Hash)]
pub enum StreamId {
    /// Default microphone (capture endpoint).
    Mic,
    /// Default render endpoint captured via loopback (system audio).
    Loopback,
}

/// A recording's portable state: the id whose `<meeting-id>.wav` is being
/// written. The platform capture session that feeds the file is owned next
/// to it by the caller.
pub struct AudioController {
    meeting_id: String,
}

impl AudioController {
    /// The recording's meeting id.
    pub closed spec fn id(&self) -> Seq<char> {
        self.meeting_id@
    }

    /// Begin a recording under the next meeting id of `ids`, which sorts
    /// after every id `ids` handed out before.
    pub fn new(ids: &mut meeting_id::IdSource) -> (c: AudioController)
        ensures
            meeting_id::is_meeting_id(c.id()),
            old(ids).last_id() matches Some(prev) ==> meeting_id::id_precedes(prev, c.id()),
            final(ids).last_id() == Some(c.id()),
    {
        AudioController { meeting_id: ids.next() }
    }

    /// The id used for this recording's WAV filename.
    pub fn meeting_id(&self) -> (r: &str)
        ensures
            r@ == self.id(),
    {
        self.meeting_id.as_str()
    }

    /// The recording's file name: the meeting id followed by `.wav`.
    pub fn wav_file_name(&self) -> (r: String)
        ensures
            r@ == self.id() + seq!['.', 'w', 'a', 'v'],
    {
        let mut name = self.meeting_id.clone();
        name.append(".wav");
        proof {
            reveal_strlit(".wav");
        }
        assert(name@ =~= self.id() + seq!['.', 'w', 'a', 'v']);
        name
    }

    /// End the recording. The portable state has nothing left to release, so
    /// this always succeeds; the capture session is torn down by its owner.
    pub fn stop(self) -> (r: Result<(), String>)
        ensures
            r is Ok,
    {
        Ok(())
    }
}

} // verus!
