//! What the events of a voice channel do to a recording.
use crate::session::{lemma_audio_wf, RecordingSession, SessionState};
use crate::session_laws::{law_push_keeps_audio, total_samples};
use crate::time::Timestamp;
use crate::transcriber::{fmt_placeholder_name, placeholder_name};
use vstd::prelude::*;

verus! {

broadcast use vstd::string::group_string_axioms;

/// An event of a voice channel.
#[derive(Debug)]
pub enum VoiceEvent {
    /// Audio of twenty milliseconds: each source that speaks, with its samples where
    /// they could be decoded.
    VoiceTick(Vec<(u32, Option<Vec<i16>>)>),
    /// A source starts or stops to speak; whose it is may be unknown.
    SpeakingStateUpdate { ssrc: u32, user_id: Option<u64> },
    /// A user left the channel.
    ClientDisconnect(u64),
    /// Anything else.
    Other,
}

/// The state after the samples of all sources came in at the instant `now`.
pub open spec fn after_tick(
    state: SessionState,
    speaking: Seq<(u32, Option<Vec<i16>>)>,
    now: int,
) -> SessionState
    decreases speaking.len(),
{
    if speaking.len() == 0 {
        state
    } else {
        let before = after_tick(state, speaking.drop_last(), now);
        match speaking.last().1 {
            Some(samples) => before.with_audio(speaking.last().0, samples@, now),
            None => before,
        }
    }
}

/// The state after an event at the instant `now`.
pub open spec fn after_event(state: SessionState, event: VoiceEvent, now: int) -> SessionState {
    match event {
        VoiceEvent::VoiceTick(speaking) => after_tick(state, speaking@, now),
        VoiceEvent::SpeakingStateUpdate { ssrc, user_id: Some(user) } => state.with_registration(
            ssrc,
            user,
            placeholder_name(user as nat),
        ),
        _ => state,
    }
}

/// How many samples a tick brings.
pub open spec fn tick_samples(speaking: Seq<(u32, Option<Vec<i16>>)>) -> nat
    decreases speaking.len(),
{
    if speaking.len() == 0 {
        0
    } else {
        tick_samples(speaking.drop_last()) + match speaking.last().1 {
            Some(samples) => samples@.len(),
            None => 0,
        }
    }
}

/// All samples of a tick are kept, whoever they come from.
pub proof fn law_tick_keeps_audio(
    state: SessionState,
    speaking: Seq<(u32, Option<Vec<i16>>)>,
    now: int,
)
    requires
        state.wf(),
    ensures
        total_samples(after_tick(state, speaking, now).audio) == total_samples(state.audio)
            + tick_samples(speaking),
        after_tick(state, speaking, now).wf(),
    decreases speaking.len(),
{
    if speaking.len() > 0 {
        let before = after_tick(state, speaking.drop_last(), now);
        law_tick_keeps_audio(state, speaking.drop_last(), now);
        match speaking.last().1 {
            Some(samples) => {
                law_push_keeps_audio(before, speaking.last().0, samples@, now);
                lemma_audio_wf(before, speaking.last().0, samples@, now);
            },
            None => {},
        }
    }
}

impl RecordingSession {
    /// Takes an event of the voice channel that happens at the instant `now`.
    pub fn act_at(&mut self, event: &VoiceEvent, now: Timestamp)
        ensures
            final(self)@ == after_event(old(self)@, *event, now@),
            final(self).same_recording(*old(self)),
            old(self)@.wf() ==> final(self)@.wf(),
    {
        match event {
            VoiceEvent::VoiceTick(speaking) => {
                for i in 0..speaking.len()
                    invariant
                        self@ == after_tick(old(self)@, speaking@.take(i as int), now@),
                        self.same_recording(*old(self)),
                        old(self)@.wf() ==> self@.wf(),
                {
                    assert(speaking@.take(i + 1).drop_last() =~= speaking@.take(i as int));
                    let entry = &speaking[i];
                    match &entry.1 {
                        Some(samples) => {
                            self.push_audio_at(entry.0, samples.as_slice(), now);
                        },
                        None => {},
                    }
                }
                assert(speaking@.take(speaking@.len() as int) =~= speaking@);
            },
            VoiceEvent::SpeakingStateUpdate { ssrc, user_id } => {
                match user_id {
                    Some(user) => {
                        self.register_ssrc(*ssrc, *user, fmt_placeholder_name(*user));
                    },
                    None => {},
                }
            },
            _ => {},
        }
    }

    /// Takes an event of the voice channel that happens now.
    pub fn act(&mut self, event: &VoiceEvent)
        ensures
            exists|now: int|
                now >= 0 && final(self)@ == #[trigger] after_event(old(self)@, *event, now),
            final(self).same_recording(*old(self)),
            old(self)@.wf() ==> final(self)@.wf(),
    {
        let now = Timestamp::now();
        self.act_at(event, now);
    }
}

} // verus!
