//! The life of a recording: whose audio is whose, and what was said so far.
use crate::formatter::{
    batch_messages, duration_between, duration_seconds, fmt_duration, format_raw_batch,
    minutes_seconds,
};
use crate::ids::{add_id, has_id, in_order, keys_of, lemma_in_order, lists};
use crate::text::texts;
use crate::time::{montreal_time, truncated_div, Timestamp};
use crate::transcriber::{fmt_placeholder_name, placeholder_name};
use std::collections::{HashMap, HashSet};
use vstd::prelude::*;

verus! {

broadcast use {vstd::string::group_string_axioms, vstd::std_specs::hash::group_hash_axioms};

/// What one speaker said in one go. The times are in milliseconds.
#[derive(Debug)]
pub struct Segment {
    pub user: String,
    pub start: i128,
    pub end: i128,
    pub text: String,
}

impl Clone for Segment {
    fn clone(&self) -> (r: Segment)
        ensures
            r == *self,
    {
        Segment {
            user: self.user.clone(),
            start: self.start,
            end: self.end,
            text: self.text.clone(),
        }
    }
}

/// A segment, with its texts as sequences of characters.
pub struct SegmentView {
    pub user: Seq<char>,
    pub start: int,
    pub end: int,
    pub text: Seq<char>,
}

impl View for Segment {
    type V = SegmentView;

    open spec fn view(&self) -> SegmentView {
        SegmentView {
            user: self.user@,
            start: self.start as int,
            end: self.end as int,
            text: self.text@,
        }
    }
}

/// The segments of a list, each by its view.
pub open spec fn segment_views(segments: Seq<Segment>) -> Seq<SegmentView> {
    segments.map_values(|s: Segment| s@)
}

// ---------------------------------------------------------------------------
// The state of a recording
// ---------------------------------------------------------------------------

/// What a recording knows at one moment.
#[verifier::ext_equal]
pub struct SessionState {
    /// The audio of the current batch, by speaker: stereo samples at 48 kHz.
    pub audio: Map<u64, Seq<i16>>,
    /// The speaker behind each audio source (SSRC).
    pub ssrc_to_user: Map<u32, u64>,
    /// The names of those who are known to be in the channel.
    pub names: Map<u64, Seq<char>>,
    /// All that was said so far.
    pub segments: Seq<SegmentView>,
    /// How many batches were closed.
    pub batch_number: nat,
    /// When the current batch began, in nanoseconds of the Unix clock.
    pub batch_start: int,
    /// The speakers that were made up for an audio source and stand in for someone.
    pub placeholders: Set<u64>,
    /// How far into the batch the audio of each speaker begins, in milliseconds.
    pub offsets: Map<u64, int>,
}

/// The audio of a speaker; none where there is no buffer.
pub open spec fn buffer_of(audio: Map<u64, Seq<i16>>, user: u64) -> Seq<i16> {
    if audio.contains_key(user) {
        audio[user]
    } else {
        Seq::empty()
    }
}

/// The audio with more samples at the end of the speaker's buffer.
pub open spec fn appended(audio: Map<u64, Seq<i16>>, user: u64, samples: Seq<i16>) -> Map<
    u64,
    Seq<i16>,
> {
    audio.insert(user, buffer_of(audio, user) + samples)
}

/// The audio with the buffer of one speaker moved to the end of another's.
pub open spec fn moved(audio: Map<u64, Seq<i16>>, from: u64, to: u64) -> Map<u64, Seq<i16>> {
    if audio.contains_key(from) {
        appended(audio.remove(from), to, audio[from])
    } else {
        audio
    }
}

/// The offsets with the one of a speaker moved to another, who keeps their own where
/// they have one.
pub open spec fn moved_offset(offsets: Map<u64, int>, from: u64, to: u64) -> Map<u64, int> {
    let rest = offsets.remove(from);
    if offsets.contains_key(from) && !rest.contains_key(to) {
        rest.insert(to, offsets[from])
    } else {
        rest
    }
}

/// How many sources can be given to a person each.
pub open spec fn pair_count(sources: Seq<u64>, users: Seq<u64>) -> nat {
    if sources.len() <= users.len() {
        sources.len()
    } else {
        users.len()
    }
}

impl SessionState {
    /// Each placeholder has a name and is the number of an audio source; exactly those
    /// who have audio have an offset; and audio, sources and names are finitely many.
    pub open spec fn wf(self) -> bool {
        &&& forall|id: u64| #[trigger]
            self.placeholders.contains(id) ==> self.names.contains_key(id) && id <= u32::MAX
        &&& self.offsets.dom() == self.audio.dom()
        &&& self.audio.dom().finite()
        &&& self.ssrc_to_user.dom().finite()
        &&& self.names.dom().finite()
    }

    /// Some audio source belongs to that speaker.
    pub open spec fn is_mapped(self, user: u64) -> bool {
        self.ssrc_to_user.contains_value(user)
    }

    /// Those who are known but have no audio source.
    pub open spec fn unmapped(self) -> Set<u64> {
        self.names.dom().filter(|user: u64| !self.is_mapped(user))
    }

    /// Those who are known, have no audio source and are no placeholders.
    pub open spec fn unmapped_real(self) -> Set<u64> {
        self.unmapped().filter(|user: u64| !self.placeholders.contains(user))
    }

    /// The audio sources that belong to a placeholder.
    pub open spec fn placeholder_ssrcs(self) -> Set<u64> {
        Set::new(
            |id: u64|
                id <= u32::MAX && self.ssrc_to_user.contains_key(id as u32)
                    && self.placeholders.contains(self.ssrc_to_user[id as u32]),
        )
    }

    /// The speaker to whom audio of that source goes: the one it belongs to; else
    /// the one person without a source, if there is exactly one; else a placeholder
    /// of the source's own number.
    pub open spec fn speaker_of(self, ssrc: u32) -> u64 {
        if self.ssrc_to_user.contains_key(ssrc) {
            self.ssrc_to_user[ssrc]
        } else if self.unmapped().len() == 1 {
            self.unmapped().choose()
        } else {
            ssrc as u64
        }
    }

    /// The state once the source belongs to someone.
    pub open spec fn with_source(self, ssrc: u32) -> SessionState {
        if self.ssrc_to_user.contains_key(ssrc) {
            self
        } else {
            let user = self.speaker_of(ssrc);
            let mapped = SessionState {
                ssrc_to_user: self.ssrc_to_user.insert(ssrc, user),
                ..self
            };
            if self.unmapped().len() == 1 || self.names.contains_key(user) {
                mapped
            } else {
                SessionState {
                    names: self.names.insert(user, placeholder_name(ssrc as nat)),
                    placeholders: self.placeholders.insert(user),
                    ..mapped
                }
            }
        }
    }

    /// The state after audio came in at the instant `now`.
    pub open spec fn with_audio(self, ssrc: u32, samples: Seq<i16>, now: int) -> SessionState {
        let user = self.speaker_of(ssrc);
        let known = self.with_source(ssrc);
        SessionState {
            audio: appended(known.audio, user, samples),
            offsets: if known.offsets.contains_key(user) {
                known.offsets
            } else {
                known.offsets.insert(user, truncated_div(now - self.batch_start, 1_000_000))
            },
            ..known
        }
    }

    /// The audio that came in under the number of a source moves, with its offset, to
    /// the speaker whose source it turns out to be.
    pub open spec fn migrates(self, ssrc: u32, user: u64) -> bool {
        &&& self.ssrc_to_user.contains_key(ssrc)
        &&& self.ssrc_to_user[ssrc] == ssrc as u64
        &&& user != ssrc as u64
        &&& self.audio.contains_key(ssrc as u64)
    }

    /// The state after it was announced whose source that is.
    pub open spec fn with_registration(self, ssrc: u32, user: u64, name: Seq<char>) -> SessionState {
        let known = SessionState {
            ssrc_to_user: self.ssrc_to_user.insert(ssrc, user),
            names: if self.names.contains_key(user) {
                self.names
            } else {
                self.names.insert(user, name)
            },
            ..self
        };
        if self.migrates(ssrc, user) {
            SessionState {
                audio: moved(self.audio, ssrc as u64, user),
                offsets: moved_offset(self.offsets, ssrc as u64, user),
                names: known.names.remove(ssrc as u64),
                placeholders: self.placeholders.remove(ssrc as u64),
                ..known
            }
        } else {
            known
        }
    }

    /// The state after the source of that number, which had a placeholder, was
    /// given to a person.
    pub open spec fn with_resolved(self, source: u64, user: u64) -> SessionState {
        SessionState {
            audio: moved(self.audio, source, user),
            offsets: moved_offset(self.offsets, source, user),
            ssrc_to_user: self.ssrc_to_user.insert(source as u32, user),
            names: self.names.remove(source),
            placeholders: self.placeholders.remove(source),
            ..self
        }
    }

    /// The state after the first `n` sources were given to the first `n` persons.
    pub open spec fn with_pairs(self, sources: Seq<u64>, users: Seq<u64>, n: nat) -> SessionState
        decreases n,
    {
        if n == 0 {
            self
        } else {
            self.with_pairs(sources, users, (n - 1) as nat).with_resolved(
                sources[n - 1],
                users[n - 1],
            )
        }
    }

    /// The state after the sources of placeholders were given, in the order of
    /// their numbers, to the persons without a source, in the order of theirs.
    pub open spec fn resolved(self) -> SessionState {
        let sources = in_order(self.placeholder_ssrcs());
        let users = in_order(self.unmapped_real());
        self.with_pairs(sources, users, pair_count(sources, users))
    }

    /// The state after the batch was closed at the instant `now`.
    pub open spec fn flushed(self, now: int) -> SessionState {
        SessionState {
            audio: Map::empty(),
            offsets: Map::empty(),
            batch_number: self.batch_number + 1,
            batch_start: now,
            ..self.resolved()
        }
    }

    /// The state with more segments at the end of what was said.
    pub open spec fn with_segments(self, segments: Seq<SegmentView>) -> SessionState {
        SessionState { segments: self.segments + segments, ..self }
    }
}

// ---------------------------------------------------------------------------
// The recording
// ---------------------------------------------------------------------------

/// The part of a recording that changes while it goes on.
pub struct SessionInner {
    audio_buffers: HashMap<u64, Vec<i16>>,
    ssrc_to_user: HashMap<u32, u64>,
    user_names: HashMap<u64, String>,
    all_segments: Vec<Segment>,
    batch_number: u32,
    batch_start: Timestamp,
    placeholder_ids: HashSet<u64>,
    audio_start_offsets: HashMap<u64, i64>,
}

/// A recording of one voice channel, posted to one Slack thread.
pub struct RecordingSession {
    pub guild_id: u64,
    pub voice_channel_name: String,
    pub slack_channel: String,
    pub slack_thread_ts: String,
    pub start_time: Timestamp,
    pub flush_interval_secs: u64,
    pub inner: SessionInner,
}

/// The buffers, each as a sequence of samples.
pub open spec fn audio_view(buffers: Map<u64, Vec<i16>>) -> Map<u64, Seq<i16>> {
    buffers.map_values(|buffer: Vec<i16>| buffer@)
}

/// The names, each as a sequence of characters.
pub open spec fn names_view(names: Map<u64, String>) -> Map<u64, Seq<char>> {
    names.map_values(|name: String| name@)
}

/// The offsets as numbers.
pub open spec fn offsets_view(offsets: Map<u64, i64>) -> Map<u64, int> {
    offsets.map_values(|offset: i64| offset as int)
}

impl View for SessionInner {
    type V = SessionState;

    closed spec fn view(&self) -> SessionState {
        SessionState {
            audio: audio_view(self.audio_buffers@),
            ssrc_to_user: self.ssrc_to_user@,
            names: names_view(self.user_names@),
            segments: segment_views(self.all_segments@),
            batch_number: self.batch_number as nat,
            batch_start: self.batch_start@,
            placeholders: self.placeholder_ids@,
            offsets: offsets_view(self.audio_start_offsets@),
        }
    }
}

impl View for RecordingSession {
    type V = SessionState;

    open spec fn view(&self) -> SessionState {
        self.inner@
    }
}

/// A closed batch, to be transcribed.
pub struct Batch {
    pub buffers: HashMap<u64, Vec<i16>>,
    pub user_names: HashMap<u64, String>,
    pub audio_offsets: HashMap<u64, i64>,
    pub number: u32,
    pub start: Timestamp,
    pub end: Timestamp,
}

/// The batch that is closed at the instant `now` in that state: all its audio, by
/// the speakers to whom it was given, and the instants between which it came in.
pub open spec fn is_batch(batch: Batch, state: SessionState, now: Timestamp) -> bool {
    let resolved = state.resolved();
    &&& audio_view(batch.buffers@) == resolved.audio
    &&& names_view(batch.user_names@) == resolved.names
    &&& offsets_view(batch.audio_offsets@) == resolved.offsets
    &&& batch.number == state.batch_number + 1
    &&& batch.start@ == state.batch_start
    &&& batch.end == now
}

/// A time that much later, as far as 128 bits hold it.
pub open spec fn later(millis: int, offset: int) -> int {
    if millis + offset > i128::MAX {
        i128::MAX as int
    } else if millis + offset < i128::MIN {
        i128::MIN as int
    } else {
        millis + offset
    }
}

/// The segments that much later.
pub open spec fn shifted(segments: Seq<SegmentView>, offset: int) -> Seq<SegmentView> {
    segments.map_values(
        |s: SegmentView|
            SegmentView { start: later(s.start, offset), end: later(s.end, offset), ..s },
    )
}

fn add_millis(millis: i128, offset: i64) -> (r: i128)
    ensures
        r == later(millis as int, offset as int),
{
    let offset: i128 = offset as i128;
    if offset > 0 && millis > i128::MAX - offset {
        i128::MAX
    } else if offset < 0 && millis < i128::MIN - offset {
        i128::MIN
    } else {
        millis + offset
    }
}

proof fn lemma_lists_len(ids: Seq<u64>, set: Set<u64>)
    requires
        lists(ids, set),
    ensures
        ids.len() == set.len(),
{
    ids.unique_seq_to_set();
}

proof fn lemma_pairs_frame(state: SessionState, sources: Seq<u64>, users: Seq<u64>, n: nat)
    ensures
        state.with_pairs(sources, users, n).segments == state.segments,
        state.with_pairs(sources, users, n).batch_number == state.batch_number,
        state.with_pairs(sources, users, n).batch_start == state.batch_start,
    decreases n,
{
    if n > 0 {
        lemma_pairs_frame(state, sources, users, (n - 1) as nat);
    }
}

/// Giving sources to persons touches neither what was said nor the batch's number
/// and start.
pub proof fn lemma_resolved_frame(state: SessionState)
    ensures
        state.resolved().segments == state.segments,
        state.resolved().batch_number == state.batch_number,
        state.resolved().batch_start == state.batch_start,
{
    let sources = in_order(state.placeholder_ssrcs());
    let users = in_order(state.unmapped_real());
    lemma_pairs_frame(state, sources, users, pair_count(sources, users));
}

/// Moving the audio and the offset of a speaker leaves an offset to exactly those who
/// have audio.
proof fn lemma_moved_together(
    audio: Map<u64, Seq<i16>>,
    offsets: Map<u64, int>,
    from: u64,
    to: u64,
)
    requires
        offsets.dom() == audio.dom(),
    ensures
        moved_offset(offsets, from, to).dom() == moved(audio, from, to).dom(),
{
    assert(offsets.contains_key(from) == audio.contains_key(from)) by {
        assert(offsets.dom().contains(from) == audio.dom().contains(from));
    }
    assert(moved_offset(offsets, from, to).dom() =~= moved(audio, from, to).dom());
}

/// Audio that comes in keeps the state well formed.
pub proof fn lemma_audio_wf(state: SessionState, ssrc: u32, samples: Seq<i16>, now: int)
    ensures
        state.wf() ==> state.with_audio(ssrc, samples, now).wf(),
{
    if state.wf() {
        let after = state.with_audio(ssrc, samples, now);
        assert(after.offsets.dom() =~= after.audio.dom());
    }
}

/// Registering a source keeps the state well formed.
proof fn lemma_registration_wf(state: SessionState, ssrc: u32, user: u64, name: Seq<char>)
    ensures
        state.wf() ==> state.with_registration(ssrc, user, name).wf(),
{
    if state.wf() {
        lemma_moved_together(state.audio, state.offsets, ssrc as u64, user);
    }
}

proof fn lemma_pairs_wf(state: SessionState, sources: Seq<u64>, users: Seq<u64>, n: nat)
    ensures
        state.wf() ==> state.with_pairs(sources, users, n).wf(),
    decreases n,
{
    if n > 0 {
        lemma_pairs_wf(state, sources, users, (n - 1) as nat);
        if state.wf() {
            let before = state.with_pairs(sources, users, (n - 1) as nat);
            lemma_moved_together(before.audio, before.offsets, sources[n - 1], users[n - 1]);
        }
    }
}

/// Giving sources to persons keeps the state well formed.
pub proof fn lemma_resolved_wf(state: SessionState)
    ensures
        state.wf() ==> state.resolved().wf(),
{
    let sources = in_order(state.placeholder_ssrcs());
    let users = in_order(state.unmapped_real());
    lemma_pairs_wf(state, sources, users, pair_count(sources, users));
}

/// Closing a batch keeps the state well formed.
proof fn lemma_flush_wf(state: SessionState, now: int)
    ensures
        state.wf() ==> state.flushed(now).wf(),
{
    lemma_resolved_wf(state);
    assert(state.flushed(now).offsets.dom() =~= state.flushed(now).audio.dom());
}

proof fn lemma_pairs_audio_empty(state: SessionState, sources: Seq<u64>, users: Seq<u64>, n: nat)
    ensures
        state.with_pairs(sources, users, n).audio.dom() == Set::<u64>::empty() <==> state.audio.dom()
            == Set::<u64>::empty(),
    decreases n,
{
    if n > 0 {
        let before = state.with_pairs(sources, users, (n - 1) as nat);
        lemma_pairs_audio_empty(state, sources, users, (n - 1) as nat);
        let after = before.with_resolved(sources[n - 1], users[n - 1]);
        if before.audio.contains_key(sources[n - 1]) {
            assert(after.audio.contains_key(users[n - 1]));
            assert(after.audio.dom().contains(users[n - 1]));
            assert(before.audio.dom().contains(sources[n - 1]));
        }
    }
}

/// Giving sources to persons leaves no audio behind and makes none up.
proof fn lemma_resolved_audio_empty(state: SessionState)
    ensures
        state.resolved().audio.dom() == Set::<u64>::empty() <==> state.audio.dom() == Set::<
            u64,
        >::empty(),
{
    let sources = in_order(state.placeholder_ssrcs());
    let users = in_order(state.unmapped_real());
    lemma_pairs_audio_empty(state, sources, users, pair_count(sources, users));
}

/// Appends samples to the buffer of a speaker.
fn append_audio(buffers: &mut HashMap<u64, Vec<i16>>, user: u64, samples: &[i16])
    ensures
        audio_view(final(buffers)@) == appended(audio_view(old(buffers)@), user, samples@),
{
    let ghost before = audio_view(buffers@);
    let mut buffer: Vec<i16> = match buffers.remove(&user) {
        Some(buffer) => buffer,
        None => Vec::new(),
    };
    assert(buffer@ =~= buffer_of(before, user));
    buffer.extend_from_slice(samples);
    assert(buffer@ =~= buffer_of(before, user) + samples@);
    buffers.insert(user, buffer);
    assert(audio_view(buffers@) =~= appended(before, user, samples@));
}

/// Moves the buffer of one speaker to the end of another's.
fn move_audio(buffers: &mut HashMap<u64, Vec<i16>>, from: u64, to: u64) -> (r: bool)
    ensures
        audio_view(final(buffers)@) == moved(audio_view(old(buffers)@), from, to),
        r == old(buffers)@.contains_key(from),
{
    let ghost before = audio_view(buffers@);
    match buffers.remove(&from) {
        Some(buffer) => {
            assert(audio_view(buffers@) =~= before.remove(from));
            append_audio(buffers, to, buffer.as_slice());
            true
        },
        None => {
            assert(audio_view(buffers@) =~= before);
            false
        },
    }
}

/// Moves the offset of one speaker to another, unless they have one.
fn move_offset(offsets: &mut HashMap<u64, i64>, from: u64, to: u64)
    ensures
        offsets_view(final(offsets)@) == moved_offset(offsets_view(old(offsets)@), from, to),
{
    let ghost before = offsets_view(offsets@);
    match offsets.remove(&from) {
        Some(offset) => {
            assert(offsets_view(offsets@) =~= before.remove(from));
            if !offsets.contains_key(&to) {
                offsets.insert(to, offset);
                assert(offsets_view(offsets@) =~= before.remove(from).insert(to, offset as int));
            }
        },
        None => {
            assert(offsets_view(offsets@) =~= before.remove(from));
        },
    }
}

/// Gives a name to a speaker, unless one is known already.
fn name_if_absent(names: &mut HashMap<u64, String>, user: u64, name: String)
    ensures
        names_view(final(names)@) == if names_view(old(names)@).contains_key(user) {
            names_view(old(names)@)
        } else {
            names_view(old(names)@).insert(user, name@)
        },
{
    let ghost before = names_view(names@);
    if !names.contains_key(&user) {
        let ghost text = name@;
        names.insert(user, name);
        assert(names_view(names@) =~= before.insert(user, text));
    }
}

impl SessionInner {
    /// The speakers who have an audio source.
    fn mapped_users(&self) -> (r: Vec<u64>)
        ensures
            forall|user: u64| r@.contains(user) <==> self@.is_mapped(user),
    {
        let sources = keys_of(&self.ssrc_to_user);
        let mut r: Vec<u64> = Vec::new();
        for i in 0..sources.len()
            invariant
                forall|ssrc: u32|
                    sources@.contains(ssrc) <==> self.ssrc_to_user@.contains_key(ssrc),
                r@.len() == i,
                forall|k: int| 0 <= k < i ==> #[trigger] r@[k] == self.ssrc_to_user@[sources@[k]],
        {
            assert(sources@.contains(sources@[i as int]));
            match self.ssrc_to_user.get(&sources[i]) {
                Some(user) => {
                    r.push(*user);
                },
                None => {},
            }
        }
        assert forall|user: u64| r@.contains(user) <==> self@.is_mapped(user) by {
            if r@.contains(user) {
                let k = choose|k: int| 0 <= k < r@.len() && r@[k] == user;
                assert(sources@.contains(sources@[k]));
                assert(self.ssrc_to_user@.dom().contains(sources@[k]));
            }
            if self@.is_mapped(user) {
                let ssrc = choose|ssrc: u32| #[trigger]
                    self.ssrc_to_user@.dom().contains(ssrc) && self.ssrc_to_user@[ssrc] == user;
                assert(sources@.contains(ssrc));
                let k = choose|k: int| 0 <= k < sources@.len() && sources@[k] == ssrc;
                assert(r@[k] == user);
            }
        }
        r
    }

    /// Those who are known but have no audio source, in order; without the
    /// placeholders where only persons are asked for.
    fn unmapped_users(&self, only_persons: bool) -> (r: Vec<u64>)
        ensures
            lists(
                r@,
                if only_persons {
                    self@.unmapped_real()
                } else {
                    self@.unmapped()
                },
            ),
    {
        let mapped = self.mapped_users();
        let known = keys_of(&self.user_names);
        let ghost wanted = |user: u64|
            !self@.is_mapped(user) && !(only_persons && self@.placeholders.contains(user));
        let mut r: Vec<u64> = Vec::new();
        assert(r@.to_set() =~= known@.take(0).to_set().filter(wanted));
        for i in 0..known.len()
            invariant
                forall|user: u64| mapped@.contains(user) <==> self@.is_mapped(user),
                wanted == |user: u64|
                    !self@.is_mapped(user) && !(only_persons && self@.placeholders.contains(user)),
                lists(r@, known@.take(i as int).to_set().filter(wanted)),
        {
            let user: u64 = known[i];
            let ghost before = known@.take(i as int);
            proof {
                assert(known@.take(i + 1) =~= before.push(user));
                before.lemma_push_to_set_commute(user);
            }
            if !has_id(&mapped, user) && !(only_persons && self.placeholder_ids.contains(&user)) {
                add_id(&mut r, user);
                assert(before.to_set().insert(user).filter(wanted) =~= before.to_set().filter(
                    wanted,
                ).insert(user));
            } else {
                assert(before.to_set().insert(user).filter(wanted) =~= before.to_set().filter(
                    wanted,
                ));
            }
        }
        proof {
            assert(known@.take(known@.len() as int) =~= known@);
            assert(self@.names.dom() =~= self.user_names@.dom());
            if only_persons {
                assert(self@.unmapped_real() =~= known@.to_set().filter(wanted));
            } else {
                assert(self@.unmapped() =~= known@.to_set().filter(wanted));
            }
        }
        r
    }

    /// The audio sources that belong to a placeholder, in order.
    fn placeholder_sources(&self) -> (r: Vec<u64>)
        ensures
            lists(r@, self@.placeholder_ssrcs()),
    {
        let sources = keys_of(&self.ssrc_to_user);
        let ghost all = self@.placeholder_ssrcs();
        let mut r: Vec<u64> = Vec::new();
        assert(r@.to_set() =~= all.filter(|id: u64| sources@.take(0).contains(id as u32)));
        for i in 0..sources.len()
            invariant
                all == self@.placeholder_ssrcs(),
                forall|ssrc: u32|
                    sources@.contains(ssrc) <==> self.ssrc_to_user@.contains_key(ssrc),
                lists(r@, all.filter(|id: u64| sources@.take(i as int).contains(id as u32))),
        {
            let ssrc: u32 = sources[i];
            let ghost before = sources@.take(i as int);
            let ghost after = sources@.take(i + 1);
            let ghost old_set = all.filter(|id: u64| before.contains(id as u32));
            let ghost new_set = all.filter(|id: u64| after.contains(id as u32));
            proof {
                assert(sources@.contains(sources@[i as int]));
                assert(after =~= before.push(ssrc));
                assert forall|other: u32| after.contains(other) <==> before.contains(other) || other
                    == ssrc by {
                    assert(after[i as int] == ssrc);
                    if before.contains(other) {
                        let k = choose|k: int| 0 <= k < before.len() && before[k] == other;
                        assert(after[k] == other);
                    }
                    if after.contains(other) && other != ssrc {
                        let k = choose|k: int| 0 <= k < after.len() && after[k] == other;
                        assert(before[k] == other);
                    }
                }
                assert((ssrc as u64) as u32 == ssrc);
            }
            match self.ssrc_to_user.get(&ssrc) {
                Some(user) => {
                    if self.placeholder_ids.contains(user) {
                        add_id(&mut r, ssrc as u64);
                        assert(new_set =~= old_set.insert(ssrc as u64));
                    } else {
                        assert(new_set =~= old_set);
                    }
                },
                None => {},
            }
        }
        proof {
            assert(sources@.take(sources@.len() as int) =~= sources@);
            assert(all =~= all.filter(|id: u64| sources@.contains(id as u32)));
        }
        r
    }

    /// Finds the speaker to whom audio of that source goes, and gives the source to
    /// them.
    fn take_source(&mut self, ssrc: u32) -> (r: u64)
        ensures
            r == old(self)@.speaker_of(ssrc),
            final(self)@ == old(self)@.with_source(ssrc),
    {
        let ghost before = self@;
        match self.ssrc_to_user.get(&ssrc) {
            Some(user) => {
                return *user;
            },
            None => {},
        }
        let unmapped = self.unmapped_users(false);
        proof {
            lemma_lists_len(unmapped@, before.unmapped());
        }
        let user: u64 = if unmapped.len() == 1 {
            let user: u64 = unmapped[0];
            proof {
                assert(before.unmapped().contains(before.unmapped().choose()));
                assert(unmapped@.to_set().contains(before.unmapped().choose()));
            }
            user
        } else {
            let user: u64 = ssrc as u64;
            if !self.user_names.contains_key(&user) {
                let name = fmt_placeholder_name(user);
                let ghost text = name@;
                self.user_names.insert(user, name);
                self.placeholder_ids.insert(user);
                assert(names_view(self.user_names@) =~= before.names.insert(user, text));
            }
            user
        };
        self.ssrc_to_user.insert(ssrc, user);
        assert(self@ =~= before.with_source(ssrc));
        user
    }

    /// Adds samples of an audio source that came in at the instant `now`.
    fn push_audio_at(&mut self, ssrc: u32, samples: &[i16], now: Timestamp)
        ensures
            final(self)@ == old(self)@.with_audio(ssrc, samples@, now@),
    {
        let ghost before = self@;
        let user: u64 = self.take_source(ssrc);
        append_audio(&mut self.audio_buffers, user, samples);
        let ghost offsets = self@.offsets;
        if !self.audio_start_offsets.contains_key(&user) {
            let offset: i64 = now.millis_since(self.batch_start);
            self.audio_start_offsets.insert(user, offset);
            assert(self@.offsets =~= offsets.insert(user, offset as int));
        }
        assert(self@ =~= before.with_audio(ssrc, samples@, now@));
    }

    /// Notes whose audio source that is.
    fn register_ssrc(&mut self, ssrc: u32, user_id: u64, display_name: String)
        ensures
            final(self)@ == old(self)@.with_registration(ssrc, user_id, display_name@),
    {
        let ghost before = self@;
        let ghost name = display_name@;
        let had_own_number = match self.ssrc_to_user.get(&ssrc) {
            Some(user) => *user == ssrc as u64,
            None => false,
        };
        self.ssrc_to_user.insert(ssrc, user_id);
        name_if_absent(&mut self.user_names, user_id, display_name);
        if had_own_number && ssrc as u64 != user_id {
            let placeholder: u64 = ssrc as u64;
            let ghost names = self@.names;
            if move_audio(&mut self.audio_buffers, placeholder, user_id) {
                move_offset(&mut self.audio_start_offsets, placeholder, user_id);
                self.user_names.remove(&placeholder);
                self.placeholder_ids.remove(&placeholder);
                assert(self@.names =~= names.remove(placeholder));
            } else {
                assert(self@.audio =~= before.audio);
            }
        }
        assert(self@ =~= before.with_registration(ssrc, user_id, name));
    }

    /// Gives the source of that number, which had a placeholder, to a person.
    fn resolve_source(&mut self, source: u64, user: u64)
        requires
            source <= u32::MAX,
        ensures
            final(self)@ == old(self)@.with_resolved(source, user),
    {
        let ghost before = self@;
        move_audio(&mut self.audio_buffers, source, user);
        move_offset(&mut self.audio_start_offsets, source, user);
        self.ssrc_to_user.insert(source as u32, user);
        self.user_names.remove(&source);
        self.placeholder_ids.remove(&source);
        assert(self@.names =~= before.names.remove(source));
        assert(self@ =~= before.with_resolved(source, user));
    }

    /// Gives the sources of placeholders, in the order of their numbers, to the
    /// persons without a source, in the order of theirs.
    fn resolve_placeholders(&mut self)
        ensures
            final(self)@ == old(self)@.resolved(),
    {
        let ghost before = self@;
        let sources = self.placeholder_sources();
        let users = self.unmapped_users(true);
        proof {
            lemma_in_order(sources@, before.placeholder_ssrcs());
            lemma_in_order(users@, before.unmapped_real());
        }
        let mut i: usize = 0;
        while i < sources.len() && i < users.len()
            invariant
                i <= sources@.len(),
                i <= users@.len(),
                sources@.to_set() == before.placeholder_ssrcs(),
                self@ == before.with_pairs(sources@, users@, i as nat),
            decreases sources@.len() - i,
        {
            assert(sources@.to_set().contains(sources@[i as int]));
            self.resolve_source(sources[i], users[i]);
            i += 1;
        }
    }

    /// Closes the batch at the instant `now` and begins the next one.
    fn flush_at(&mut self, now: Timestamp) -> (r: Batch)
        requires
            old(self)@.batch_number < u32::MAX,
        ensures
            final(self)@ == old(self)@.flushed(now@),
            is_batch(r, old(self)@, now),
    {
        let ghost before = self@;
        self.resolve_placeholders();
        proof {
            lemma_resolved_frame(before);
        }
        let ghost resolved = self@;
        let mut buffers: HashMap<u64, Vec<i16>> = HashMap::new();
        std::mem::swap(&mut buffers, &mut self.audio_buffers);
        let mut audio_offsets: HashMap<u64, i64> = HashMap::new();
        std::mem::swap(&mut audio_offsets, &mut self.audio_start_offsets);
        let user_names = self.user_names.clone();
        self.batch_number += 1;
        let start = self.batch_start;
        self.batch_start = now;
        assert(self@.audio =~= Map::empty());
        assert(self@.offsets =~= Map::empty());
        assert(self@ =~= before.flushed(now@));
        Batch { buffers, user_names, audio_offsets, number: self.batch_number, start, end: now }
    }

    /// Adds the segments of a batch that began `offset` milliseconds into the
    /// recording.
    fn store_segments(&mut self, segments: &Vec<Segment>, offset: i64)
        ensures
            final(self)@ == old(self)@.with_segments(
                shifted(segment_views(segments@), offset as int),
            ),
    {
        let ghost before = self@;
        let ghost new = shifted(segment_views(segments@), offset as int);
        assert(before.segments + new.take(0) =~= before.segments);
        for i in 0..segments.len()
            invariant
                new == shifted(segment_views(segments@), offset as int),
                self@ == before.with_segments(new.take(i as int)),
        {
            let segment = Segment {
                user: segments[i].user.clone(),
                start: add_millis(segments[i].start, offset),
                end: add_millis(segments[i].end, offset),
                text: segments[i].text.clone(),
            };
            let ghost stored = self@.segments;
            let ghost last = segment@;
            self.all_segments.push(segment);
            assert(self@.segments =~= stored.push(last));
            assert(last == new[i as int]);
            assert(self@.segments =~= before.segments + new.take(i + 1));
            assert(self@ =~= before.with_segments(new.take(i + 1)));
        }
        assert(new.take(new.len() as int) =~= new);
    }
}

impl RecordingSession {
    /// What does not change while the recording goes on.
    pub open spec fn same_recording(self, other: RecordingSession) -> bool {
        &&& self.guild_id == other.guild_id
        &&& self.voice_channel_name == other.voice_channel_name
        &&& self.slack_channel == other.slack_channel
        &&& self.slack_thread_ts == other.slack_thread_ts
        &&& self.start_time == other.start_time
        &&& self.flush_interval_secs == other.flush_interval_secs
    }

    /// A recording that begins at the instant `now`.
    pub fn new_at(
        guild_id: u64,
        voice_channel_name: String,
        slack_channel: String,
        slack_thread_ts: String,
        flush_interval_secs: u64,
        initial_user_names: HashMap<u64, String>,
        now: Timestamp,
    ) -> (r: RecordingSession)
        ensures
            r.guild_id == guild_id,
            r.voice_channel_name == voice_channel_name,
            r.slack_channel == slack_channel,
            r.slack_thread_ts == slack_thread_ts,
            r.start_time == now,
            r.flush_interval_secs == flush_interval_secs,
            r@ == (SessionState {
                audio: Map::empty(),
                ssrc_to_user: Map::empty(),
                names: names_view(initial_user_names@),
                segments: Seq::empty(),
                batch_number: 0,
                batch_start: now@,
                placeholders: Set::empty(),
                offsets: Map::empty(),
            }),
            r@.wf(),
    {
        let r = RecordingSession {
            guild_id,
            voice_channel_name,
            slack_channel,
            slack_thread_ts,
            start_time: now,
            flush_interval_secs,
            inner: SessionInner {
                audio_buffers: HashMap::new(),
                ssrc_to_user: HashMap::new(),
                user_names: initial_user_names,
                all_segments: Vec::new(),
                batch_number: 0,
                batch_start: now,
                placeholder_ids: HashSet::new(),
                audio_start_offsets: HashMap::new(),
            },
        };
        assert(r@.audio =~= Map::empty());
        assert(r@.offsets =~= Map::empty());
        assert(r@.segments =~= Seq::empty());
        assert(r@.names.dom() =~= r.inner.user_names@.dom());
        r
    }

    /// A recording that begins now.
    pub fn new(
        guild_id: u64,
        voice_channel_name: String,
        slack_channel: String,
        slack_thread_ts: String,
        flush_interval_secs: u64,
        initial_user_names: HashMap<u64, String>,
    ) -> (r: RecordingSession)
        ensures
            r.guild_id == guild_id,
            r.voice_channel_name == voice_channel_name,
            r.slack_channel == slack_channel,
            r.slack_thread_ts == slack_thread_ts,
            r.flush_interval_secs == flush_interval_secs,
            r@ == (SessionState {
                audio: Map::empty(),
                ssrc_to_user: Map::empty(),
                names: names_view(initial_user_names@),
                segments: Seq::empty(),
                batch_number: 0,
                batch_start: r.start_time@,
                placeholders: Set::empty(),
                offsets: Map::empty(),
            }),
            r@.wf(),
    {
        RecordingSession::new_at(
            guild_id,
            voice_channel_name,
            slack_channel,
            slack_thread_ts,
            flush_interval_secs,
            initial_user_names,
            Timestamp::now(),
        )
    }

    /// How long the recording has gone on at the instant `now`.
    pub fn duration_str_at(&self, now: Timestamp) -> (r: String)
        ensures
            r@ == minutes_seconds(duration_seconds(self.start_time@, now@)),
    {
        fmt_duration(duration_between(self.start_time, now))
    }

    /// How long the recording has gone on.
    pub fn duration_str(&self) -> (r: String)
        ensures
            exists|now: int|
                now >= 0 && r@ == #[trigger] minutes_seconds(
                    duration_seconds(self.start_time@, now),
                ),
    {
        self.duration_str_at(Timestamp::now())
    }

    /// How many batches were closed.
    pub fn batch_count(&self) -> (r: u32)
        ensures
            r == self@.batch_number,
    {
        self.inner.batch_number
    }

    /// All that was said so far.
    pub fn all_segments(&self) -> (r: Vec<Segment>)
        ensures
            segment_views(r@) == self@.segments,
    {
        let mut r: Vec<Segment> = Vec::new();
        let ghost all = self@.segments;
        assert(segment_views(r@) =~= all.take(0));
        for i in 0..self.inner.all_segments.len()
            invariant
                all == segment_views(self.inner.all_segments@),
                segment_views(r@) == all.take(i as int),
        {
            let ghost before = segment_views(r@);
            r.push(self.inner.all_segments[i].clone());
            assert(segment_views(r@) =~= before.push(all[i as int]));
            assert(segment_views(r@) =~= all.take(i + 1));
        }
        assert(all.take(all.len() as int) =~= all);
        r
    }

    /// Adds samples of an audio source that came in at the instant `now`.
    pub fn push_audio_at(&mut self, ssrc: u32, samples: &[i16], now: Timestamp)
        ensures
            final(self)@ == old(self)@.with_audio(ssrc, samples@, now@),
            final(self).same_recording(*old(self)),
            old(self)@.wf() ==> final(self)@.wf(),
    {
        self.inner.push_audio_at(ssrc, samples, now);
        proof {
            lemma_audio_wf(old(self)@, ssrc, samples@, now@);
        }
    }

    /// Adds samples of an audio source that come in now.
    pub fn push_audio(&mut self, ssrc: u32, samples: &[i16])
        ensures
            exists|now: int|
                now >= 0 && final(self)@ == #[trigger] old(self)@.with_audio(ssrc, samples@, now),
            final(self).same_recording(*old(self)),
            old(self)@.wf() ==> final(self)@.wf(),
    {
        let now = Timestamp::now();
        self.push_audio_at(ssrc, samples, now);
    }

    /// Notes whose audio source that is. The name is used only where none is known.
    pub fn register_ssrc(&mut self, ssrc: u32, user_id: u64, display_name: String)
        ensures
            final(self)@ == old(self)@.with_registration(ssrc, user_id, display_name@),
            final(self).same_recording(*old(self)),
            old(self)@.wf() ==> final(self)@.wf(),
    {
        let ghost name = display_name@;
        self.inner.register_ssrc(ssrc, user_id, display_name);
        proof {
            lemma_registration_wf(old(self)@, ssrc, user_id, name);
        }
    }

    /// Closes the batch at the instant `now` and begins the next one. The closed
    /// batch is to be transcribed; `None` where it holds no audio.
    pub fn flush_batch_at(&mut self, now: Timestamp) -> (r: Option<Batch>)
        requires
            old(self)@.batch_number < u32::MAX,
        ensures
            final(self)@ == old(self)@.flushed(now@),
            final(self).same_recording(*old(self)),
            old(self)@.wf() ==> final(self)@.wf(),
            r is None <==> old(self)@.audio.dom() == Set::<u64>::empty(),
            r matches Some(batch) ==> is_batch(batch, old(self)@, now),
    {
        let batch = self.inner.flush_at(now);
        proof {
            lemma_flush_wf(old(self)@, now@);
            lemma_resolved_audio_empty(old(self)@);
            assert(audio_view(batch.buffers@).dom() =~= batch.buffers@.dom());
        }
        if batch.buffers.is_empty() {
            assert(batch.buffers@.dom() =~= Set::empty());
            None
        } else {
            Some(batch)
        }
    }

    /// Closes the batch now and begins the next one. The closed batch is to be
    /// transcribed; `None` where it holds no audio.
    pub fn flush_batch(&mut self) -> (r: Option<Batch>)
        requires
            old(self)@.batch_number < u32::MAX,
        ensures
            exists|now: int| now >= 0 && final(self)@ == #[trigger] old(self)@.flushed(now),
            final(self).same_recording(*old(self)),
            old(self)@.wf() ==> final(self)@.wf(),
            r is None <==> old(self)@.audio.dom() == Set::<u64>::empty(),
            r matches Some(batch) ==> is_batch(batch, old(self)@, batch.end) && final(self)@
                == old(self)@.flushed(batch.end@),
    {
        let now = Timestamp::now();
        self.flush_batch_at(now)
    }

    /// Keeps what was heard in a batch, with the times counted from the start of the
    /// recording, and lays it out as the messages to post.
    pub fn finish_batch(&mut self, batch: &Batch, segments: &Vec<Segment>) -> (r: Vec<String>)
        ensures
            final(self)@ == old(self)@.with_segments(
                shifted(
                    segment_views(segments@),
                    truncated_div(batch.start@ - old(self).start_time@, 1_000_000),
                ),
            ),
            final(self).same_recording(*old(self)),
            old(self)@.wf() ==> final(self)@.wf(),
            texts(r@) == batch_messages(
                segment_views(segments@),
                batch.number as nat,
                montreal_time(batch.start@, "%H:%M"@),
                montreal_time(batch.end@, "%H:%M"@),
            ),
    {
        let offset: i64 = batch.start.millis_since(self.start_time);
        self.inner.store_segments(segments, offset);
        format_raw_batch(segments.as_slice(), batch.number, batch.start, batch.end)
    }
}

} // verus!
