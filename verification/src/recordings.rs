//! The recordings that go on, one for each guild.
use crate::commands::{status_text, stop_step, StopAction, StopEvent, StopState};
use std::collections::HashMap;
use vstd::prelude::*;

verus! {

broadcast use vstd::std_specs::hash::group_hash_axioms;

/// The recordings that go on, by the number of their guild.
pub struct Recordings<R> {
    by_guild: HashMap<u64, R>,
}

impl<R> View for Recordings<R> {
    type V = Map<u64, R>;

    closed spec fn view(&self) -> Map<u64, R> {
        self.by_guild@
    }
}

/// The recording of a guild, if one goes on.
pub open spec fn recording_of<R>(recordings: Map<u64, R>, guild_id: u64) -> Option<R> {
    if recordings.contains_key(guild_id) {
        Some(recordings[guild_id])
    } else {
        None
    }
}

impl<R> Recordings<R> {
    /// No recording goes on.
    pub fn new() -> (r: Recordings<R>)
        ensures
            r@ == Map::<u64, R>::empty(),
    {
        Recordings { by_guild: HashMap::new() }
    }

    /// Whether a recording goes on in the guild.
    pub fn contains(&self, guild_id: u64) -> (r: bool)
        ensures
            r == self@.contains_key(guild_id),
    {
        self.by_guild.contains_key(&guild_id)
    }

    /// The recording of the guild, if one goes on.
    pub fn get(&self, guild_id: u64) -> (r: Option<&R>)
        ensures
            match r {
                Some(recording) => recording_of(self@, guild_id) == Some(*recording),
                None => recording_of(self@, guild_id) is None,
            },
    {
        self.by_guild.get(&guild_id)
    }

    /// Notes the recording of a guild. One that went on there before is dropped.
    pub fn insert(&mut self, guild_id: u64, recording: R)
        ensures
            final(self)@ == old(self)@.insert(guild_id, recording),
    {
        self.by_guild.insert(guild_id, recording);
    }

    /// Takes the recording of a guild out, if one goes on.
    pub fn remove(&mut self, guild_id: u64) -> (r: Option<R>)
        ensures
            final(self)@ == old(self)@.remove(guild_id),
            r == recording_of(old(self)@, guild_id),
    {
        self.by_guild.remove(&guild_id)
    }
}

/// A recording is found from when it was noted until it is taken out. Taking it out
/// leaves those of the other guilds; and doing so twice is doing so once.
pub proof fn law_taken_out_once<R>(recordings: Map<u64, R>, guild_id: u64, recording: R, other: u64)
    ensures
        recording_of(recordings.insert(guild_id, recording), guild_id) == Some(recording),
        recording_of(recordings.remove(guild_id), guild_id) is None,
        recordings.remove(guild_id).remove(guild_id) == recordings.remove(guild_id),
        other != guild_id ==> recording_of(recordings.remove(guild_id), other) == recording_of(
            recordings,
            other,
        ),
        other != guild_id ==> recording_of(recordings.insert(guild_id, recording), other)
            == recording_of(recordings, other),
{
    assert(recordings.remove(guild_id).remove(guild_id) =~= recordings.remove(guild_id));
}

/// Where no recording goes on in the guild, `/warroom stop` only says so: it leaves no
/// channel and posts nothing; and `/warroom status` says the same. So it is for every
/// stop after the first, whatever came of the first, since that takes the recording
/// out before all else.
pub proof fn law_second_stop<R>(
    recordings: Map<u64, R>,
    guild_id: u64,
    state: StopState,
    event: StopEvent,
    next: StopState,
    action: StopAction,
)
    requires
        state is LookingUp,
        event matches StopEvent::Recording(found) && (found is Some <==> recording_of(
            recordings.remove(guild_id),
            guild_id,
        ) is Some),
        stop_step(state, event, next, action),
    ensures
        next is Ended,
        action matches StopAction::Say(said) && said@ == "Aucun enregistrement actif."@,
        status_text(None) == "Aucun enregistrement actif."@,
{
}

} // verus!
