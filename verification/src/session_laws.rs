//! What holds of every recording.
use crate::ids::{in_order, lists};
use crate::session::{
    appended, audio_view, buffer_of, is_batch, lemma_resolved_frame, lemma_resolved_wf, moved,
    names_view, offsets_view, pair_count, segment_views, shifted, Batch, RecordingSession,
    Segment, SegmentView, SessionState,
};
use crate::text::decimal;
use crate::time::Timestamp;
use std::collections::HashMap;
use vstd::prelude::*;

verus! {

// ---------------------------------------------------------------------------
// No audio is lost
// ---------------------------------------------------------------------------

/// How many samples the buffers hold together.
pub open spec fn total_samples(audio: Map<u64, Seq<i16>>) -> nat
    decreases audio.dom().len(),
{
    if !audio.dom().finite() || audio.dom().len() == 0 {
        0
    } else {
        let user = audio.dom().choose();
        audio[user].len() + total_samples(audio.remove(user))
    }
}

proof fn lemma_total_split(audio: Map<u64, Seq<i16>>, user: u64)
    requires
        audio.dom().finite(),
        audio.contains_key(user),
    ensures
        total_samples(audio) == audio[user].len() + total_samples(audio.remove(user)),
    decreases audio.dom().len(),
{
    let first = audio.dom().choose();
    assert(audio.dom().contains(user));
    assert(audio.dom().len() > 0);
    if first != user {
        lemma_total_split(audio.remove(first), user);
        lemma_total_split(audio.remove(user), first);
        assert(audio.remove(first).remove(user) =~= audio.remove(user).remove(first));
    }
}

proof fn lemma_total_appended(audio: Map<u64, Seq<i16>>, user: u64, samples: Seq<i16>)
    requires
        audio.dom().finite(),
    ensures
        total_samples(appended(audio, user, samples)) == total_samples(audio) + samples.len(),
        appended(audio, user, samples).dom().finite(),
{
    let after = appended(audio, user, samples);
    lemma_total_split(after, user);
    if audio.contains_key(user) {
        lemma_total_split(audio, user);
        assert(after.remove(user) =~= audio.remove(user));
    } else {
        assert(after.remove(user) =~= audio);
    }
}

proof fn lemma_total_moved(audio: Map<u64, Seq<i16>>, from: u64, to: u64)
    requires
        audio.dom().finite(),
    ensures
        total_samples(moved(audio, from, to)) == total_samples(audio),
        moved(audio, from, to).dom().finite(),
{
    if audio.contains_key(from) {
        lemma_total_split(audio, from);
        lemma_total_appended(audio.remove(from), to, audio[from]);
    }
}

/// The samples of all speakers are those of one of them and those of the others; without
/// a speaker there are none.
pub proof fn law_total_samples(audio: Map<u64, Seq<i16>>, user: u64)
    requires
        audio.dom().finite(),
    ensures
        audio.contains_key(user) ==> total_samples(audio) == audio[user].len() + total_samples(
            audio.remove(user),
        ),
        total_samples(Map::<u64, Seq<i16>>::empty()) == 0,
        audio.contains_key(user) ==> buffer_of(audio, user) == audio[user],
        !audio.contains_key(user) ==> buffer_of(audio, user) == Seq::<i16>::empty(),
{
    if audio.contains_key(user) {
        lemma_total_split(audio, user);
    }
}

/// All samples that come in are kept.
pub proof fn law_push_keeps_audio(state: SessionState, ssrc: u32, samples: Seq<i16>, now: int)
    requires
        state.wf(),
    ensures
        total_samples(state.with_audio(ssrc, samples, now).audio) == total_samples(state.audio)
            + samples.len(),
{
    lemma_total_appended(state.audio, state.speaker_of(ssrc), samples);
}

/// Registering a source loses no sample.
pub proof fn law_registration_keeps_audio(state: SessionState, ssrc: u32, user: u64, name: Seq<char>)
    requires
        state.wf(),
    ensures
        total_samples(state.with_registration(ssrc, user, name).audio) == total_samples(state.audio),
{
    lemma_total_moved(state.audio, ssrc as u64, user);
}

proof fn lemma_pairs_keep_audio(state: SessionState, sources: Seq<u64>, users: Seq<u64>, n: nat)
    requires
        state.audio.dom().finite(),
    ensures
        total_samples(state.with_pairs(sources, users, n).audio) == total_samples(state.audio),
        state.with_pairs(sources, users, n).audio.dom().finite(),
    decreases n,
{
    if n > 0 {
        lemma_pairs_keep_audio(state, sources, users, (n - 1) as nat);
        lemma_total_moved(
            state.with_pairs(sources, users, (n - 1) as nat).audio,
            sources[n - 1],
            users[n - 1],
        );
    }
}

/// Closing a batch hands out every sample that came in, and leaves none for the
/// next batch.
pub proof fn law_flush_hands_out_audio(state: SessionState, now: int)
    requires
        state.wf(),
    ensures
        total_samples(state.resolved().audio) == total_samples(state.audio),
        total_samples(state.flushed(now).audio) == 0,
{
    let sources = in_order(state.placeholder_ssrcs());
    let users = in_order(state.unmapped_real());
    lemma_pairs_keep_audio(state, sources, users, pair_count(sources, users));
}

// ---------------------------------------------------------------------------
// Whose audio it is
// ---------------------------------------------------------------------------

/// Audio goes to the end of its speaker's buffer and to no other. From then on the
/// source belongs to that speaker; the other sources keep theirs.
pub proof fn law_audio_goes_to_speaker(state: SessionState, ssrc: u32, samples: Seq<i16>, now: int)
    ensures
        ({
            let user = state.speaker_of(ssrc);
            let after = state.with_audio(ssrc, samples, now);
            &&& buffer_of(after.audio, user) == buffer_of(state.audio, user) + samples
            &&& forall|other: u64|
                other != user ==> #[trigger] buffer_of(after.audio, other) == buffer_of(
                    state.audio,
                    other,
                )
            &&& after.ssrc_to_user.contains_key(ssrc)
            &&& after.speaker_of(ssrc) == user
            &&& forall|other: u32|
                #![trigger after.ssrc_to_user.contains_key(other)]
                other != ssrc ==> after.ssrc_to_user.contains_key(other)
                    == state.ssrc_to_user.contains_key(other) && after.ssrc_to_user[other]
                    == state.ssrc_to_user[other]
        }),
{
}

/// A name that is known is kept when audio comes in.
pub proof fn law_audio_keeps_names(
    state: SessionState,
    ssrc: u32,
    samples: Seq<i16>,
    now: int,
    user: u64,
)
    requires
        state.names.contains_key(user),
    ensures
        state.with_audio(ssrc, samples, now).names.contains_key(user),
        state.with_audio(ssrc, samples, now).names[user] == state.names[user],
{
}

/// The audio of a speaker is timed by its first samples in the batch: later ones
/// leave the offset as it is.
pub proof fn law_first_offset_stays(
    state: SessionState,
    ssrc: u32,
    samples: Seq<i16>,
    now: int,
    user: u64,
)
    requires
        state.offsets.contains_key(user),
    ensures
        state.with_audio(ssrc, samples, now).offsets.contains_key(user),
        state.with_audio(ssrc, samples, now).offsets[user] == state.offsets[user],
{
}

/// A source that was registered belongs to that user, whose name is the one known
/// before or else the one given.
pub proof fn law_registration_takes_hold(
    state: SessionState,
    ssrc: u32,
    user: u64,
    name: Seq<char>,
)
    ensures
        state.with_registration(ssrc, user, name).speaker_of(ssrc) == user,
        state.with_registration(ssrc, user, name).names.contains_key(user),
        state.with_registration(ssrc, user, name).names[user] == if state.names.contains_key(user) {
            state.names[user]
        } else {
            name
        },
{
}

/// Audio that came in under the number of a source goes to the user as whose
/// source it is registered; what else they had comes first.
pub proof fn law_registration_migrates(state: SessionState, ssrc: u32, user: u64, name: Seq<char>)
    requires
        state.ssrc_to_user.contains_key(ssrc),
        state.ssrc_to_user[ssrc] == ssrc as u64,
        user != ssrc as u64,
    ensures
        ({
            let after = state.with_registration(ssrc, user, name);
            &&& buffer_of(after.audio, user) == buffer_of(state.audio, user) + buffer_of(
                state.audio,
                ssrc as u64,
            )
            &&& !after.audio.contains_key(ssrc as u64)
        }),
{
    let after = state.with_registration(ssrc, user, name);
    assert(buffer_of(after.audio, user) =~= buffer_of(state.audio, user) + buffer_of(
        state.audio,
        ssrc as u64,
    ));
}

/// The offset of a speaker, if they have one.
pub open spec fn offset_of(offsets: Map<u64, int>, user: u64) -> Option<int> {
    if offsets.contains_key(user) {
        Some(offsets[user])
    } else {
        None
    }
}

/// The first offset where there is one, else the second.
pub open spec fn first_of(first: Option<int>, second: Option<int>) -> Option<int> {
    if first is Some {
        first
    } else {
        second
    }
}

/// The time of audio that moves goes with it: nobody is timed under the number of the
/// source any more, and the user has its offset unless they had one of their own.
pub proof fn law_registration_moves_offset(
    state: SessionState,
    ssrc: u32,
    user: u64,
    name: Seq<char>,
)
    requires
        state.migrates(ssrc, user),
    ensures
        ({
            let source = ssrc as u64;
            let after = state.with_registration(ssrc, user, name).offsets;
            &&& offset_of(after, source) is None
            &&& offset_of(after, user) == first_of(
                offset_of(state.offsets, user),
                offset_of(state.offsets, source),
            )
            &&& forall|other: u64|
                other != source && other != user ==> #[trigger] offset_of(after, other)
                    == offset_of(state.offsets, other)
        }),
{
}

/// In every batch exactly those who have audio have an offset, so that all that is
/// heard is timed.
pub proof fn law_audio_is_timed(state: SessionState, user: u64)
    requires
        state.wf(),
    ensures
        state.offsets.contains_key(user) <==> state.audio.contains_key(user),
        state.resolved().offsets.contains_key(user) <==> state.resolved().audio.contains_key(user),
{
    lemma_resolved_wf(state);
    assert(state.offsets.dom().contains(user) == state.audio.dom().contains(user));
    assert(state.resolved().offsets.dom().contains(user) == state.resolved().audio.dom().contains(
        user,
    ));
}

// ---------------------------------------------------------------------------
// Placeholders
// ---------------------------------------------------------------------------

/// No source of a placeholder has the number of a person without a source.
pub open spec fn numbers_apart(state: SessionState) -> bool {
    forall|id: u64| #[trigger]
        state.placeholder_ssrcs().contains(id) ==> !state.unmapped_real().contains(id)
}

proof fn lemma_largest(set: Set<u64>) -> (largest: u64)
    requires
        set.finite(),
        set.len() > 0,
    ensures
        set.contains(largest),
        forall|id: u64| set.contains(id) ==> id <= largest,
    decreases set.len(),
{
    let id = set.choose();
    let rest = set.remove(id);
    if rest.len() == 0 {
        assert forall|other: u64| set.contains(other) implies other <= id by {
            if other != id {
                assert(rest.contains(other));
            }
        }
        id
    } else {
        let other = lemma_largest(rest);
        assert forall|x: u64| set.contains(x) implies x <= id || x <= other by {
            if x != id {
                assert(rest.contains(x));
            }
        }
        if id < other {
            other
        } else {
            id
        }
    }
}

/// Every finite set can be listed in order.
proof fn lemma_in_order_lists(set: Set<u64>)
    requires
        set.finite(),
    ensures
        lists(in_order(set), set),
    decreases set.len(),
{
    if set.len() == 0 {
        let empty = Seq::<u64>::empty();
        assert(empty.to_set() =~= set);
        assert(lists(empty, set));
    } else {
        let largest = lemma_largest(set);
        let rest = set.remove(largest);
        lemma_in_order_lists(rest);
        let init = in_order(rest);
        let ids = init.push(largest);
        init.lemma_push_to_set_commute(largest);
        assert(ids.to_set() =~= set);
        assert forall|i: int, j: int| 0 <= i < j < ids.len() implies ids[i] < ids[j] by {
            if j == init.len() {
                assert(init.to_set().contains(init[i]));
                assert(rest.contains(init[i]));
            }
        }
        assert(lists(ids, set));
    }
}

/// The members of a finite set in order: each smaller than those after it, and exactly
/// the members.
pub proof fn law_in_order(set: Set<u64>)
    requires
        set.finite(),
    ensures
        forall|i: int, j: int|
            0 <= i < j < in_order(set).len() ==> in_order(set)[i] < in_order(set)[j],
        forall|id: u64| in_order(set).contains(id) <==> set.contains(id),
{
    lemma_in_order_lists(set);
    assert forall|id: u64| in_order(set).contains(id) <==> set.contains(id) by {
        assert(in_order(set).to_set().contains(id) == set.contains(id));
    }
}

proof fn lemma_sources_finite(state: SessionState)
    requires
        state.wf(),
    ensures
        state.placeholder_ssrcs().finite(),
        state.unmapped_real().finite(),
{
    let widened = state.ssrc_to_user.dom().map(|ssrc: u32| ssrc as u64);
    state.ssrc_to_user.dom().lemma_map_finite(|ssrc: u32| ssrc as u64);
    assert forall|id: u64| state.placeholder_ssrcs().contains(id) implies widened.contains(id) by {
        assert(state.ssrc_to_user.dom().contains(id as u32));
        assert((id as u32) as u64 == id);
    }
    vstd::set_lib::lemma_set_subset_finite(widened, state.placeholder_ssrcs());
    vstd::set_lib::lemma_set_subset_finite(state.names.dom(), state.unmapped_real());
}

/// The first `n` members of the list hold that identifier.
spec fn among_first(ids: Seq<u64>, n: nat, id: u64) -> bool {
    exists|i: int| 0 <= i < n && #[trigger] ids[i] == id
}

proof fn lemma_among_first_grows(ids: Seq<u64>, n: nat)
    ensures
        forall|id: u64| #[trigger]
            among_first(ids, n + 1, id) <==> among_first(ids, n, id) || id == ids[n as int],
{
    assert forall|id: u64| #[trigger] among_first(ids, n + 1, id) <==> among_first(ids, n, id) || id
        == ids[n as int] by {
        assert(ids[n as int] == ids[n as int]);
        if among_first(ids, n, id) {
            let i = choose|i: int| 0 <= i < n && #[trigger] ids[i] == id;
            assert(ids[i] == id);
        }
    }
}

/// To whom the sources belong, and who is known, after the first `n` sources were
/// given away.
proof fn lemma_pairs_effect(state: SessionState, sources: Seq<u64>, users: Seq<u64>, n: nat)
    requires
        lists(sources, state.placeholder_ssrcs()),
        n <= sources.len(),
    ensures
        ({
            let after = state.with_pairs(sources, users, n);
            &&& forall|i: int|
                0 <= i < n ==> after.ssrc_to_user.contains_key(sources[i] as u32)
                    && after.ssrc_to_user[#[trigger] sources[i] as u32] == users[i]
            &&& forall|ssrc: u32|
                #![trigger after.ssrc_to_user.contains_key(ssrc)]
                !among_first(sources, n, ssrc as u64) ==> after.ssrc_to_user.contains_key(ssrc)
                    == state.ssrc_to_user.contains_key(ssrc) && after.ssrc_to_user[ssrc]
                    == state.ssrc_to_user[ssrc]
            &&& forall|id: u64| #[trigger]
                after.placeholders.contains(id) <==> state.placeholders.contains(id)
                    && !among_first(sources, n, id)
            &&& forall|id: u64| #[trigger]
                after.names.contains_key(id) <==> state.names.contains_key(id) && !among_first(
                    sources,
                    n,
                    id,
                )
            &&& forall|id: u64| #[trigger]
                after.names.contains_key(id) ==> after.names[id] == state.names[id]
        }),
    decreases n,
{
    if n > 0 {
        let m = (n - 1) as nat;
        let before = state.with_pairs(sources, users, m);
        let source = sources[m as int];
        let after = before.with_resolved(source, users[m as int]);
        lemma_pairs_effect(state, sources, users, m);
        lemma_among_first_grows(sources, m);
        assert forall|i: int| 0 <= i < n implies (#[trigger] sources[i]) as u32 as u64
            == sources[i] by {
            assert(sources.to_set().contains(sources[i]));
        }
        assert forall|i: int| 0 <= i < n implies after.ssrc_to_user.contains_key(sources[i] as u32)
            && after.ssrc_to_user[#[trigger] sources[i] as u32] == users[i] by {
            if i < m {
                assert(sources[i] < sources[m as int]);
            }
        }
        assert forall|ssrc: u32|
            #![trigger after.ssrc_to_user.contains_key(ssrc)]
            !among_first(sources, n, ssrc as u64) implies after.ssrc_to_user.contains_key(ssrc)
            == state.ssrc_to_user.contains_key(ssrc) && after.ssrc_to_user[ssrc]
            == state.ssrc_to_user[ssrc] by {
            assert(among_first(sources, m + 1, ssrc as u64) == among_first(
                sources,
                n,
                ssrc as u64,
            ));
            assert(source as u32 as u64 == source);
            assert(before.ssrc_to_user.contains_key(ssrc) == state.ssrc_to_user.contains_key(ssrc));
        }
        assert forall|id: u64| #[trigger] after.placeholders.contains(id) <==>
            state.placeholders.contains(id) && !among_first(sources, n, id) by {
            assert(among_first(sources, m + 1, id) == among_first(sources, n, id));
            assert(before.placeholders.contains(id) <==> state.placeholders.contains(id)
                && !among_first(sources, m, id));
        }
        assert forall|id: u64| #[trigger] after.names.contains_key(id) <==>
            state.names.contains_key(id) && !among_first(sources, n, id) by {
            assert(among_first(sources, m + 1, id) == among_first(sources, n, id));
            assert(before.names.contains_key(id) <==> state.names.contains_key(id) && !among_first(
                sources,
                m,
                id,
            ));
        }
    } else {
        assert forall|id: u64| !among_first(sources, 0, id) by {}
    }
}

/// Neither the source nor the person of a pair is in a pair before it.
proof fn lemma_pair_is_new(state: SessionState, sources: Seq<u64>, users: Seq<u64>, m: nat)
    requires
        numbers_apart(state),
        lists(sources, state.placeholder_ssrcs()),
        lists(users, state.unmapped_real()),
        m < pair_count(sources, users),
    ensures
        forall|i: int, j: int|
            0 <= i <= m && 0 <= j <= m ==> #[trigger] sources[i] != #[trigger] users[j],
        !among_first(sources, m, sources[m as int]),
        !among_first(users, m, sources[m as int]),
        !among_first(sources, m, users[m as int]),
        !among_first(users, m, users[m as int]),
        forall|i: int| 0 <= i < m ==> #[trigger] users[i] != users[m as int],
{
    assert forall|i: int, j: int| 0 <= i <= m && 0 <= j <= m implies #[trigger] sources[i]
        != #[trigger] users[j] by {
        assert(sources.to_set().contains(sources[i]));
        assert(users.to_set().contains(users[j]));
    }
}

/// Whose audio it is after the first `n` sources were given away.
proof fn lemma_pairs_audio(state: SessionState, sources: Seq<u64>, users: Seq<u64>, n: nat)
    requires
        numbers_apart(state),
        lists(sources, state.placeholder_ssrcs()),
        lists(users, state.unmapped_real()),
        n <= pair_count(sources, users),
    ensures
        ({
            let after = state.with_pairs(sources, users, n);
            &&& forall|i: int|
                0 <= i < n ==> buffer_of(after.audio, #[trigger] users[i]) == buffer_of(
                    state.audio,
                    users[i],
                ) + buffer_of(state.audio, sources[i])
            &&& forall|i: int|
                0 <= i < n ==> !after.audio.contains_key(#[trigger] sources[i])
            &&& forall|id: u64|
                !among_first(sources, n, id) && !among_first(users, n, id) ==> #[trigger] buffer_of(
                    after.audio,
                    id,
                ) == buffer_of(state.audio, id)
        }),
    decreases n,
{
    if n > 0 {
        let m = (n - 1) as nat;
        let before = state.with_pairs(sources, users, m);
        let source = sources[m as int];
        let user = users[m as int];
        let after = before.with_resolved(source, user);
        lemma_pairs_audio(state, sources, users, m);
        lemma_among_first_grows(sources, m);
        lemma_among_first_grows(users, m);
        lemma_pair_is_new(state, sources, users, m);
        assert(buffer_of(after.audio, user) =~= buffer_of(before.audio, user) + buffer_of(
            before.audio,
            source,
        ));
        assert forall|i: int| 0 <= i < n implies buffer_of(after.audio, #[trigger] users[i])
            == buffer_of(state.audio, users[i]) + buffer_of(state.audio, sources[i]) by {
            if i < m {
                assert(sources[m as int] != users[i]);
                assert(buffer_of(after.audio, users[i]) == buffer_of(before.audio, users[i]));
            }
        }
        assert forall|i: int| 0 <= i < n implies !after.audio.contains_key(
            #[trigger] sources[i],
        ) by {
            assert(sources[i] != users[m as int]);
        }
        assert forall|id: u64|
            !among_first(sources, n, id) && !among_first(users, n, id) implies #[trigger] buffer_of(
            after.audio,
            id,
        ) == buffer_of(state.audio, id) by {
            assert(among_first(sources, m + 1, id) == among_first(sources, n, id));
            assert(among_first(users, m + 1, id) == among_first(users, n, id));
            assert(buffer_of(after.audio, id) == buffer_of(before.audio, id));
        }
    }
}

/// How the audio is timed after the first `n` sources were given away.
proof fn lemma_pairs_offsets(state: SessionState, sources: Seq<u64>, users: Seq<u64>, n: nat)
    requires
        numbers_apart(state),
        lists(sources, state.placeholder_ssrcs()),
        lists(users, state.unmapped_real()),
        n <= pair_count(sources, users),
    ensures
        ({
            let after = state.with_pairs(sources, users, n).offsets;
            &&& forall|i: int|
                0 <= i < n ==> offset_of(after, #[trigger] users[i]) == first_of(
                    offset_of(state.offsets, users[i]),
                    offset_of(state.offsets, sources[i]),
                )
            &&& forall|i: int| 0 <= i < n ==> offset_of(after, #[trigger] sources[i]) is None
            &&& forall|id: u64|
                !among_first(sources, n, id) && !among_first(users, n, id) ==> #[trigger] offset_of(
                    after,
                    id,
                ) == offset_of(state.offsets, id)
        }),
    decreases n,
{
    if n > 0 {
        let m = (n - 1) as nat;
        let before = state.with_pairs(sources, users, m);
        let source = sources[m as int];
        let user = users[m as int];
        let after = before.with_resolved(source, user);
        lemma_pairs_offsets(state, sources, users, m);
        lemma_among_first_grows(sources, m);
        lemma_among_first_grows(users, m);
        lemma_pair_is_new(state, sources, users, m);
        assert forall|i: int| 0 <= i < n implies offset_of(after.offsets, #[trigger] users[i])
            == first_of(
            offset_of(state.offsets, users[i]),
            offset_of(state.offsets, sources[i]),
        ) by {
            if i < m {
                assert(sources[m as int] != users[i]);
                assert(offset_of(after.offsets, users[i]) == offset_of(before.offsets, users[i]));
            }
        }
        assert forall|i: int| 0 <= i < n implies offset_of(
            after.offsets,
            #[trigger] sources[i],
        ) is None by {
            assert(sources[i] != users[m as int]);
            if i < m {
                assert(offset_of(before.offsets, sources[i]) is None);
            }
        }
        assert forall|id: u64|
            !among_first(sources, n, id) && !among_first(users, n, id) implies #[trigger] offset_of(
            after.offsets,
            id,
        ) == offset_of(state.offsets, id) by {
            assert(among_first(sources, m + 1, id) == among_first(sources, n, id));
            assert(among_first(users, m + 1, id) == among_first(users, n, id));
            assert(offset_of(after.offsets, id) == offset_of(before.offsets, id));
        }
    }
}

/// When a batch is closed, the sources of placeholders and the persons without a
/// source are paired in the order of their numbers: each such source then belongs
/// to its person, and nobody goes by its number any more.
pub proof fn law_resolution_pairs(state: SessionState, i: int)
    requires
        state.wf(),
        0 <= i < pair_count(
            in_order(state.placeholder_ssrcs()),
            in_order(state.unmapped_real()),
        ),
    ensures
        ({
            let source = in_order(state.placeholder_ssrcs())[i];
            let user = in_order(state.unmapped_real())[i];
            let after = state.resolved();
            &&& after.ssrc_to_user.contains_key(source as u32)
            &&& after.ssrc_to_user[source as u32] == user
            &&& !after.placeholders.contains(source)
            &&& !after.names.contains_key(source)
        }),
{
    let sources = in_order(state.placeholder_ssrcs());
    let users = in_order(state.unmapped_real());
    let n = pair_count(sources, users);
    lemma_sources_finite(state);
    lemma_in_order_lists(state.placeholder_ssrcs());
    lemma_pairs_effect(state, sources, users, n);
    assert(among_first(sources, n, sources[i]));
}

/// The audio that came in under the number of a paired source goes to its person,
/// after what else they had; all others keep their audio. Only where a source has the
/// number of a person without a source would two buffers be mixed up.
pub proof fn law_resolution_moves_audio(state: SessionState, i: int)
    requires
        state.wf(),
        numbers_apart(state),
        0 <= i < pair_count(
            in_order(state.placeholder_ssrcs()),
            in_order(state.unmapped_real()),
        ),
    ensures
        ({
            let sources = in_order(state.placeholder_ssrcs());
            let users = in_order(state.unmapped_real());
            let after = state.resolved();
            &&& buffer_of(after.audio, users[i]) == buffer_of(state.audio, users[i]) + buffer_of(
                state.audio,
                sources[i],
            )
            &&& !after.audio.contains_key(sources[i])
            &&& forall|id: u64|
                !sources.contains(id) && !users.contains(id) ==> #[trigger] buffer_of(
                    after.audio,
                    id,
                ) == buffer_of(state.audio, id)
        }),
{
    let sources = in_order(state.placeholder_ssrcs());
    let users = in_order(state.unmapped_real());
    lemma_sources_finite(state);
    lemma_in_order_lists(state.placeholder_ssrcs());
    lemma_in_order_lists(state.unmapped_real());
    lemma_pairs_audio(state, sources, users, pair_count(sources, users));
}

/// The offset of a paired source goes to its person, unless they have one of their own;
/// all others keep theirs. Only where a source has the number of a person without a
/// source would two offsets be mixed up.
pub proof fn law_resolution_moves_offsets(state: SessionState, i: int)
    requires
        state.wf(),
        numbers_apart(state),
        0 <= i < pair_count(
            in_order(state.placeholder_ssrcs()),
            in_order(state.unmapped_real()),
        ),
    ensures
        ({
            let sources = in_order(state.placeholder_ssrcs());
            let users = in_order(state.unmapped_real());
            let after = state.resolved().offsets;
            &&& offset_of(after, users[i]) == first_of(
                offset_of(state.offsets, users[i]),
                offset_of(state.offsets, sources[i]),
            )
            &&& offset_of(after, sources[i]) is None
            &&& forall|id: u64|
                !sources.contains(id) && !users.contains(id) ==> #[trigger] offset_of(after, id)
                    == offset_of(state.offsets, id)
        }),
{
    let sources = in_order(state.placeholder_ssrcs());
    let users = in_order(state.unmapped_real());
    lemma_sources_finite(state);
    lemma_in_order_lists(state.placeholder_ssrcs());
    lemma_in_order_lists(state.unmapped_real());
    lemma_pairs_offsets(state, sources, users, pair_count(sources, users));
}

/// All but the paired sources stays as it is when a batch is closed: the other sources
/// belong to whom they belonged, and the other names and placeholders are kept.
pub proof fn law_resolution_keeps_the_rest(state: SessionState)
    requires
        state.wf(),
    ensures
        ({
            let sources = in_order(state.placeholder_ssrcs());
            let users = in_order(state.unmapped_real());
            let paired = sources.take(pair_count(sources, users) as int);
            let after = state.resolved();
            &&& forall|ssrc: u32|
                #![trigger after.ssrc_to_user.contains_key(ssrc)]
                !paired.contains(ssrc as u64) ==> after.ssrc_to_user.contains_key(ssrc)
                    == state.ssrc_to_user.contains_key(ssrc) && after.ssrc_to_user[ssrc]
                    == state.ssrc_to_user[ssrc]
            &&& forall|id: u64|
                #![trigger after.names.contains_key(id)]
                !paired.contains(id) ==> after.names.contains_key(id) == state.names.contains_key(
                    id,
                ) && (state.names.contains_key(id) ==> after.names[id] == state.names[id])
            &&& forall|id: u64| #[trigger]
                after.placeholders.contains(id) <==> state.placeholders.contains(id)
                    && !paired.contains(id)
        }),
{
    let sources = in_order(state.placeholder_ssrcs());
    let users = in_order(state.unmapped_real());
    let n = pair_count(sources, users);
    let paired = sources.take(n as int);
    lemma_sources_finite(state);
    lemma_in_order_lists(state.placeholder_ssrcs());
    lemma_pairs_effect(state, sources, users, n);
    assert forall|id: u64| among_first(sources, n, id) == #[trigger] paired.contains(id) by {
        if among_first(sources, n, id) {
            let i = choose|i: int| 0 <= i < n && #[trigger] sources[i] == id;
            assert(paired[i] == id);
        }
        if paired.contains(id) {
            let i = choose|i: int| 0 <= i < paired.len() && paired[i] == id;
            assert(sources[i] == id);
        }
    }
}

/// When a batch is closed, no source is left with a placeholder while a person is
/// without a source.
pub proof fn law_resolution_complete(state: SessionState)
    requires
        state.wf(),
    ensures
        state.resolved().placeholder_ssrcs() == Set::<u64>::empty()
            || state.resolved().unmapped_real() == Set::<u64>::empty(),
{
    let sources = in_order(state.placeholder_ssrcs());
    let users = in_order(state.unmapped_real());
    let n = pair_count(sources, users);
    let after = state.resolved();
    lemma_sources_finite(state);
    lemma_in_order_lists(state.placeholder_ssrcs());
    lemma_in_order_lists(state.unmapped_real());
    lemma_pairs_effect(state, sources, users, n);
    if sources.len() <= users.len() {
        assert forall|id: u64| !after.placeholder_ssrcs().contains(id) by {
            if after.placeholder_ssrcs().contains(id) {
                let ssrc = id as u32;
                assert(ssrc as u64 == id);
                assert(after.ssrc_to_user.contains_key(ssrc));
                if among_first(sources, n, id) {
                    let i = choose|i: int| 0 <= i < n && #[trigger] sources[i] == id;
                    assert(after.ssrc_to_user[sources[i] as u32] == users[i]);
                    assert(users.to_set().contains(users[i]));
                } else {
                    assert(state.placeholder_ssrcs().contains(id));
                    assert(sources.to_set().contains(id));
                    let i = choose|i: int| 0 <= i < sources.len() && sources[i] == id;
                    assert(sources[i] == id);
                }
            }
        }
        assert(after.placeholder_ssrcs() =~= Set::<u64>::empty());
    } else {
        assert forall|user: u64| !after.unmapped_real().contains(user) by {
            if after.unmapped_real().contains(user) {
                assert(after.names.contains_key(user));
                assert(!after.placeholders.contains(user));
                if state.is_mapped(user) {
                    let ssrc = choose|ssrc: u32| #[trigger]
                        state.ssrc_to_user.dom().contains(ssrc) && state.ssrc_to_user[ssrc] == user;
                    if among_first(sources, n, ssrc as u64) {
                        let i = choose|i: int| 0 <= i < n && #[trigger] sources[i] == ssrc as u64;
                        assert(sources.to_set().contains(sources[i]));
                        assert(sources[i] as u32 == ssrc);
                    } else {
                        assert(after.ssrc_to_user.contains_key(ssrc));
                        assert(after.ssrc_to_user.dom().contains(ssrc));
                    }
                }
                assert(state.unmapped_real().contains(user));
                assert(users.to_set().contains(user));
                let i = choose|i: int| 0 <= i < users.len() && users[i] == user;
                let ssrc = sources[i] as u32;
                assert(after.ssrc_to_user[sources[i] as u32] == users[i]);
                assert(after.ssrc_to_user.dom().contains(ssrc));
            }
        }
        assert(after.unmapped_real() =~= Set::<u64>::empty());
    }
}

// ---------------------------------------------------------------------------
// Batches and what was said
// ---------------------------------------------------------------------------

/// Batches follow one another without a gap: the next one begins at the instant at
/// which this one is closed, and has the next number.
pub proof fn law_batches_follow(state: SessionState, now: int)
    ensures
        state.flushed(now).batch_start == now,
        state.flushed(now).batch_number == state.batch_number + 1,
{
}

/// What happens within a batch changes neither its number nor its start.
pub proof fn law_batch_is_kept(
    state: SessionState,
    ssrc: u32,
    samples: Seq<i16>,
    now: int,
    user: u64,
    name: Seq<char>,
    segments: Seq<SegmentView>,
)
    ensures
        ({
            let pushed = state.with_audio(ssrc, samples, now);
            let registered = state.with_registration(ssrc, user, name);
            let stored = state.with_segments(segments);
            &&& pushed.batch_start == state.batch_start && pushed.batch_number == state.batch_number
            &&& registered.batch_start == state.batch_start && registered.batch_number
                == state.batch_number
            &&& stored.batch_start == state.batch_start && stored.batch_number == state.batch_number
        }),
{
}

/// What was said is never lost nor changed: it only grows at its end.
pub proof fn law_said_only_grows(
    state: SessionState,
    ssrc: u32,
    samples: Seq<i16>,
    now: int,
    user: u64,
    name: Seq<char>,
    segments: Seq<SegmentView>,
)
    ensures
        state.with_audio(ssrc, samples, now).segments == state.segments,
        state.with_registration(ssrc, user, name).segments == state.segments,
        state.flushed(now).segments == state.segments,
        state.with_segments(segments).segments == state.segments + segments,
{
    lemma_resolved_frame(state);
}

// ---------------------------------------------------------------------------
// Who is known and whose source is whose, entry by entry
// ---------------------------------------------------------------------------

/// The source belongs to a placeholder.
pub open spec fn stands_in(state: SessionState, ssrc: u32) -> bool {
    state.ssrc_to_user.contains_key(ssrc) && state.placeholders.contains(state.ssrc_to_user[ssrc])
}

/// Someone who is known and has no source.
pub open spec fn has_no_source(state: SessionState, id: u64) -> bool {
    &&& state.names.contains_key(id)
    &&& forall|ssrc: u32| #[trigger]
        state.ssrc_to_user.contains_key(ssrc) ==> state.ssrc_to_user[ssrc] != id
}

/// A person who is known and has no source.
pub open spec fn is_waiting(state: SessionState, id: u64) -> bool {
    has_no_source(state, id) && !state.placeholders.contains(id)
}

/// Any identifier, however large, counts as one without a source exactly where it has a
/// name and no source maps to it; as a person, exactly where it is no placeholder
/// besides. A source counts as one of a placeholder exactly where it maps to one.
pub proof fn law_who_has_no_source(state: SessionState, id: u64)
    ensures
        state.unmapped().contains(id) <==> has_no_source(state, id),
        state.unmapped_real().contains(id) <==> is_waiting(state, id),
        state.placeholder_ssrcs().contains(id) <==> id <= u32::MAX && stands_in(state, id as u32),
        state.is_mapped(id) <==> exists|ssrc: u32| #[trigger]
            state.ssrc_to_user.contains_key(ssrc) && state.ssrc_to_user[ssrc] == id,
{
    assert(state.is_mapped(id) <==> exists|ssrc: u32| #[trigger]
        state.ssrc_to_user.contains_key(ssrc) && state.ssrc_to_user[ssrc] == id) by {
        if state.is_mapped(id) {
            let ssrc = choose|ssrc: u32| #[trigger]
                state.ssrc_to_user.dom().contains(ssrc) && state.ssrc_to_user[ssrc] == id;
            assert(state.ssrc_to_user.contains_key(ssrc));
        }
        if exists|ssrc: u32| #[trigger]
            state.ssrc_to_user.contains_key(ssrc) && state.ssrc_to_user[ssrc] == id {
            let ssrc = choose|ssrc: u32| #[trigger]
                state.ssrc_to_user.contains_key(ssrc) && state.ssrc_to_user[ssrc] == id;
            assert(state.ssrc_to_user.dom().contains(ssrc));
        }
    }
}

/// Audio of a source that is known goes to the end of what its owner said.
pub proof fn law_known_source(state: SessionState, ssrc: u32, samples: Seq<i16>, now: int)
    requires
        state.ssrc_to_user.contains_key(ssrc),
    ensures
        ({
            let user = state.ssrc_to_user[ssrc];
            let after = state.with_audio(ssrc, samples, now);
            &&& after.audio.contains_key(user)
            &&& state.audio.contains_key(user) ==> after.audio[user] == state.audio[user] + samples
            &&& !state.audio.contains_key(user) ==> after.audio[user] == samples
            &&& after.ssrc_to_user == state.ssrc_to_user
            &&& after.names == state.names
            &&& after.placeholders == state.placeholders
        }),
{
    assert(Seq::<i16>::empty() + samples =~= samples);
}

/// Audio of a new source goes to the only one without a source, whatever their number,
/// and the source is theirs from then on.
pub proof fn law_only_person_gets_the_source(
    state: SessionState,
    ssrc: u32,
    samples: Seq<i16>,
    now: int,
    id: u64,
)
    requires
        state.wf(),
        !state.ssrc_to_user.contains_key(ssrc),
        has_no_source(state, id),
        forall|other: u64| #[trigger]
            state.names.contains_key(other) && other != id ==> !has_no_source(state, other),
    ensures
        ({
            let after = state.with_audio(ssrc, samples, now);
            &&& after.ssrc_to_user == state.ssrc_to_user.insert(ssrc, id)
            &&& after.audio.contains_key(id)
            &&& state.audio.contains_key(id) ==> after.audio[id] == state.audio[id] + samples
            &&& !state.audio.contains_key(id) ==> after.audio[id] == samples
            &&& after.names == state.names
            &&& after.placeholders == state.placeholders
        }),
{
    let unmapped = state.unmapped();
    assert forall|other: u64| unmapped.contains(other) <==> other == id by {
        law_who_has_no_source(state, other);
    }
    assert(unmapped =~= Set::<u64>::empty().insert(id));
    assert(unmapped.len() == 1);
    assert(unmapped.contains(unmapped.choose()));
    assert(Seq::<i16>::empty() + samples =~= samples);
}

/// Where several are without a source, or nobody is, audio of a new source goes to the
/// number of the source. Where nobody goes by that number, a placeholder does from then
/// on.
pub proof fn law_unclear_source_has_its_own_number(
    state: SessionState,
    ssrc: u32,
    samples: Seq<i16>,
    now: int,
)
    requires
        state.wf(),
        !state.ssrc_to_user.contains_key(ssrc),
        (exists|a: u64, b: u64|
            a != b && #[trigger] has_no_source(state, a) && #[trigger] has_no_source(state, b))
            || (forall|a: u64| !#[trigger] has_no_source(state, a)),
    ensures
        ({
            let number = ssrc as u64;
            let after = state.with_audio(ssrc, samples, now);
            &&& after.ssrc_to_user == state.ssrc_to_user.insert(ssrc, number)
            &&& after.audio.contains_key(number)
            &&& state.audio.contains_key(number) ==> after.audio[number] == state.audio[number]
                + samples
            &&& !state.audio.contains_key(number) ==> after.audio[number] == samples
            &&& state.names.contains_key(number) ==> after.names == state.names
                && after.placeholders == state.placeholders
            &&& !state.names.contains_key(number) ==> after.names == state.names.insert(
                number,
                seq!['U', 's', 'e', 'r', '#'] + decimal(number as nat),
            ) && after.placeholders == state.placeholders.insert(number)
        }),
{
    let unmapped = state.unmapped();
    vstd::set_lib::lemma_set_subset_finite(state.names.dom(), unmapped);
    assert(unmapped.len() != 1) by {
        if exists|a: u64, b: u64|
            a != b && #[trigger] has_no_source(state, a) && #[trigger] has_no_source(state, b) {
            let (a, b) = choose|a: u64, b: u64|
                a != b && #[trigger] has_no_source(state, a) && #[trigger] has_no_source(state, b);
            law_who_has_no_source(state, a);
            law_who_has_no_source(state, b);
            assert(unmapped.remove(a).contains(b));
            assert(unmapped.remove(a).len() > 0);
        } else {
            assert forall|a: u64| !unmapped.contains(a) by {
                law_who_has_no_source(state, a);
            }
            assert(unmapped =~= Set::<u64>::empty());
        }
    }
    assert(Seq::<i16>::empty() + samples =~= samples);
    reveal_strlit("User#");
    assert("User#"@ =~= seq!['U', 's', 'e', 'r', '#']);
}

/// Audio that comes in touches but the owner of its source: all others keep their audio,
/// offset, name and source. The owner has an offset: their first one in the batch, or
/// the whole milliseconds from the start of the batch to now.
pub proof fn law_audio_touches_only_its_owner(
    state: SessionState,
    ssrc: u32,
    samples: Seq<i16>,
    now: int,
)
    ensures
        ({
            let after = state.with_audio(ssrc, samples, now);
            let user = after.ssrc_to_user[ssrc];
            &&& after.ssrc_to_user == state.ssrc_to_user.insert(ssrc, user)
            &&& after.audio.remove(user) == state.audio.remove(user)
            &&& after.offsets.remove(user) == state.offsets.remove(user)
            &&& after.names.remove(user) == state.names.remove(user)
            &&& after.placeholders.remove(user) == state.placeholders.remove(user)
            &&& state.names.contains_key(user) ==> after.names == state.names && after.placeholders
                == state.placeholders
            &&& after.offsets.contains_key(user)
            &&& state.offsets.contains_key(user) ==> after.offsets[user] == state.offsets[user]
            &&& !state.offsets.contains_key(user) && now >= state.batch_start ==> 1_000_000
                * after.offsets[user] <= now - state.batch_start < 1_000_000 * (after.offsets[user]
                + 1)
            &&& !state.offsets.contains_key(user) && now < state.batch_start ==> 1_000_000
                * after.offsets[user] >= now - state.batch_start > 1_000_000 * (after.offsets[user]
                - 1)
            &&& after.segments == state.segments
            &&& after.batch_number == state.batch_number
            &&& after.batch_start == state.batch_start
        }),
{
    let after = state.with_audio(ssrc, samples, now);
    let user = after.ssrc_to_user[ssrc];
    assert(after.ssrc_to_user =~= state.ssrc_to_user.insert(ssrc, user));
    assert(after.audio.remove(user) =~= state.audio.remove(user));
    assert(after.offsets.remove(user) =~= state.offsets.remove(user));
    assert(after.names.remove(user) =~= state.names.remove(user));
    assert(after.placeholders.remove(user) =~= state.placeholders.remove(user));
}

/// Registering a source changes its owner and names them, where no name is known. Where
/// the source went by its own number and has audio under it, that audio comes after what
/// the owner had, and the number has neither audio, offset, name nor placeholder any
/// more. All else stays.
pub proof fn law_registration_entry_by_entry(
    state: SessionState,
    ssrc: u32,
    user: u64,
    name: Seq<char>,
)
    ensures
        ({
            let number = ssrc as u64;
            let after = state.with_registration(ssrc, user, name);
            let takes_over = state.ssrc_to_user.contains_key(ssrc) && state.ssrc_to_user[ssrc]
                == number && number != user && state.audio.contains_key(number);
            &&& after.ssrc_to_user == state.ssrc_to_user.insert(ssrc, user)
            &&& after.names.contains_key(user)
            &&& after.names[user] == if state.names.contains_key(user) {
                state.names[user]
            } else {
                name
            }
            &&& !takes_over ==> after.audio == state.audio && after.offsets == state.offsets
                && after.placeholders == state.placeholders && after.names.remove(user)
                == state.names.remove(user)
            &&& takes_over ==> {
                &&& after.audio.contains_key(user)
                &&& after.audio[user] == if state.audio.contains_key(user) {
                    state.audio[user] + state.audio[number]
                } else {
                    state.audio[number]
                }
                &&& !after.audio.contains_key(number)
                &&& !after.offsets.contains_key(number)
                &&& !after.names.contains_key(number)
                &&& !after.placeholders.contains(number)
                &&& state.offsets.contains_key(user) ==> after.offsets.contains_key(user)
                    && after.offsets[user] == state.offsets[user]
                &&& !state.offsets.contains_key(user) && state.offsets.contains_key(number)
                    ==> after.offsets.contains_key(user) && after.offsets[user]
                    == state.offsets[number]
                &&& after.audio.remove(user) == state.audio.remove(user).remove(number)
                &&& after.offsets.remove(user) == state.offsets.remove(user).remove(number)
                &&& after.names.remove(user) == state.names.remove(user).remove(number)
                &&& after.placeholders == state.placeholders.remove(number)
            }
            &&& after.segments == state.segments
            &&& after.batch_number == state.batch_number
            &&& after.batch_start == state.batch_start
        }),
{
    let number = ssrc as u64;
    let after = state.with_registration(ssrc, user, name);
    assert(after.names.remove(user) =~= state.names.remove(user) || state.migrates(ssrc, user));
    if state.migrates(ssrc, user) {
        assert(after.audio.remove(user) =~= state.audio.remove(user).remove(number));
        assert(after.offsets.remove(user) =~= state.offsets.remove(user).remove(number));
        assert(after.names.remove(user) =~= state.names.remove(user).remove(number));
        assert(Seq::<i16>::empty() + state.audio[number] =~= state.audio[number]);
    }
}

// ---------------------------------------------------------------------------
// Closing a batch, entry by entry
// ---------------------------------------------------------------------------

/// Closing a batch changes nothing of who is known and whose source is whose but for the
/// sources of placeholders: all others keep their name, their source and their owner, and
/// nobody and nothing is added. The next batch begins then, with no audio.
pub proof fn law_flush_keeps_who_is_known(state: SessionState, now: int)
    requires
        state.wf(),
    ensures
        ({
            let after = state.flushed(now);
            &&& after.names == state.resolved().names
            &&& after.placeholders == state.resolved().placeholders
            &&& after.ssrc_to_user == state.resolved().ssrc_to_user
            &&& forall|id: u64|
                #![trigger after.names.contains_key(id)]
                #![trigger state.names.contains_key(id)]
                state.names.contains_key(id) && (id > u32::MAX || !stands_in(state, id as u32))
                    ==> after.names.contains_key(id)
            &&& forall|id: u64| #[trigger]
                after.names.contains_key(id) ==> state.names.contains_key(id) && after.names[id]
                    == state.names[id]
            &&& forall|id: u64| #[trigger]
                after.placeholders.contains(id) ==> state.placeholders.contains(id)
            &&& forall|id: u64| #[trigger]
                state.placeholders.contains(id) && (id > u32::MAX || !stands_in(state, id as u32))
                    ==> after.placeholders.contains(id)
            &&& forall|ssrc: u32|
                #![trigger after.ssrc_to_user.contains_key(ssrc)]
                after.ssrc_to_user.contains_key(ssrc) == state.ssrc_to_user.contains_key(ssrc)
            &&& forall|ssrc: u32|
                #![trigger after.ssrc_to_user[ssrc]]
                state.ssrc_to_user.contains_key(ssrc) && !stands_in(state, ssrc)
                    ==> after.ssrc_to_user[ssrc] == state.ssrc_to_user[ssrc]
            &&& after.audio == Map::<u64, Seq<i16>>::empty()
            &&& after.offsets == Map::<u64, int>::empty()
            &&& after.segments == state.segments
            &&& after.batch_number == state.batch_number + 1
            &&& after.batch_start == now
        }),
{
    let sources = in_order(state.placeholder_ssrcs());
    let users = in_order(state.unmapped_real());
    let n = pair_count(sources, users);
    let after = state.flushed(now);
    lemma_resolved_frame(state);
    lemma_sources_finite(state);
    lemma_in_order_lists(state.placeholder_ssrcs());
    lemma_pairs_effect(state, sources, users, n);
    lemma_paired_stand_in(state);
    assert forall|ssrc: u32|
        #![trigger after.ssrc_to_user.contains_key(ssrc)]
        after.ssrc_to_user.contains_key(ssrc) == state.ssrc_to_user.contains_key(ssrc) by {
        if among_first(sources, n, ssrc as u64) {
            let i = choose|i: int| 0 <= i < n && #[trigger] sources[i] == ssrc as u64;
            assert(sources[i] as u32 == ssrc);
            assert(stands_in(state, ssrc));
        }
    }
    assert forall|ssrc: u32|
        #![trigger after.ssrc_to_user[ssrc]]
        state.ssrc_to_user.contains_key(ssrc) && !stands_in(state, ssrc) implies
        after.ssrc_to_user[ssrc] == state.ssrc_to_user[ssrc] by {
        assert((ssrc as u64) as u32 == ssrc);
        assert(after.ssrc_to_user.contains_key(ssrc) == state.ssrc_to_user.contains_key(ssrc));
    }
}

/// Every paired source stands in for someone.
proof fn lemma_paired_stand_in(state: SessionState)
    requires
        state.wf(),
    ensures
        ({
            let sources = in_order(state.placeholder_ssrcs());
            let users = in_order(state.unmapped_real());
            forall|id: u64| #[trigger]
                among_first(sources, pair_count(sources, users), id) ==> id <= u32::MAX
                    && stands_in(state, id as u32)
        }),
{
    let sources = in_order(state.placeholder_ssrcs());
    let users = in_order(state.unmapped_real());
    let n = pair_count(sources, users);
    lemma_sources_finite(state);
    lemma_in_order_lists(state.placeholder_ssrcs());
    assert forall|id: u64| #[trigger] among_first(sources, n, id) implies id <= u32::MAX
        && stands_in(state, id as u32) by {
        let i = choose|i: int| 0 <= i < n && #[trigger] sources[i] == id;
        assert(sources.to_set().contains(sources[i]));
        law_who_has_no_source(state, id);
    }
}

/// The place of a source of a placeholder, and of a person without a source, in their
/// order.
proof fn lemma_place_of(set: Set<u64>, id: u64) -> (i: int)
    requires
        set.finite(),
        set.contains(id),
    ensures
        0 <= i < in_order(set).len(),
        in_order(set)[i] == id,
        lists(in_order(set), set),
{
    lemma_in_order_lists(set);
    assert(in_order(set).to_set().contains(id));
    choose|i: int| 0 <= i < in_order(set).len() && in_order(set)[i] == id
}

/// To whom a source of a placeholder belongs after the batch was closed.
proof fn lemma_flushed_owner(state: SessionState, now: int, ssrc: u32) -> (i: int)
    requires
        state.wf(),
        stands_in(state, ssrc),
    ensures
        ({
            let sources = in_order(state.placeholder_ssrcs());
            let users = in_order(state.unmapped_real());
            let after = state.flushed(now);
            &&& 0 <= i < sources.len()
            &&& sources[i] == ssrc as u64
            &&& i < users.len() ==> after.ssrc_to_user[ssrc] == users[i] && is_waiting(
                state,
                users[i],
            ) && !after.names.contains_key(ssrc as u64) && !after.placeholders.contains(
                ssrc as u64,
            )
            &&& i >= users.len() ==> after.ssrc_to_user[ssrc] == state.ssrc_to_user[ssrc]
            &&& after.ssrc_to_user.contains_key(ssrc)
            &&& lists(sources, state.placeholder_ssrcs())
            &&& lists(users, state.unmapped_real())
        }),
{
    let sources = in_order(state.placeholder_ssrcs());
    let users = in_order(state.unmapped_real());
    let n = pair_count(sources, users);
    let after = state.flushed(now);
    assert((ssrc as u64) as u32 == ssrc);
    law_who_has_no_source(state, ssrc as u64);
    lemma_sources_finite(state);
    let i = lemma_place_of(state.placeholder_ssrcs(), ssrc as u64);
    lemma_in_order_lists(state.unmapped_real());
    lemma_pairs_effect(state, sources, users, n);
    if i < users.len() {
        assert(after.ssrc_to_user[sources[i] as u32] == users[i]);
        assert(users.to_set().contains(users[i]));
        law_who_has_no_source(state, users[i]);
        assert(among_first(sources, n, sources[i]));
    } else {
        assert(!among_first(sources, n, ssrc as u64)) by {
            if among_first(sources, n, ssrc as u64) {
                let k = choose|k: int| 0 <= k < n && #[trigger] sources[k] == ssrc as u64;
                assert(sources[k] < sources[i]);
            }
        }
        assert(after.ssrc_to_user.contains_key(ssrc) == state.ssrc_to_user.contains_key(ssrc));
    }
    i
}

/// When a batch is closed, a source of a placeholder stays with it or goes to a person
/// who had none; nobody goes by its number then.
pub proof fn law_flush_gives_to_those_without(state: SessionState, now: int, ssrc: u32)
    requires
        state.wf(),
        stands_in(state, ssrc),
    ensures
        ({
            let after = state.flushed(now);
            let owner = after.ssrc_to_user[ssrc];
            &&& owner == state.ssrc_to_user[ssrc] || is_waiting(state, owner)
            &&& owner != state.ssrc_to_user[ssrc] ==> !after.names.contains_key(ssrc as u64)
                && !after.placeholders.contains(ssrc as u64)
        }),
{
    let i = lemma_flushed_owner(state, now, ssrc);
}

/// Of two sources of placeholders the one with the smaller number comes first: where the
/// other goes to a person, it does too, and to one with a smaller number.
pub proof fn law_flush_gives_in_order(state: SessionState, now: int, first: u32, second: u32)
    requires
        state.wf(),
        stands_in(state, first),
        stands_in(state, second),
        first < second,
        is_waiting(state, state.flushed(now).ssrc_to_user[second]),
    ensures
        is_waiting(state, state.flushed(now).ssrc_to_user[first]),
        state.flushed(now).ssrc_to_user[first] < state.flushed(now).ssrc_to_user[second],
{
    let sources = in_order(state.placeholder_ssrcs());
    let users = in_order(state.unmapped_real());
    let i = lemma_flushed_owner(state, now, first);
    let j = lemma_flushed_owner(state, now, second);
    if j <= i {
        assert(sources[j] <= sources[i]);
    }
    assert(users[i] < users[j]);
}

/// A person without a source gets one when a batch is closed, unless there is none left
/// of a placeholder: none stays with a placeholder while they go without, nor does one go
/// to a person with a larger number.
pub proof fn law_flush_leaves_nobody_out(
    state: SessionState,
    now: int,
    person: u64,
    ssrc: u32,
)
    requires
        state.wf(),
        is_waiting(state, person),
        stands_in(state, ssrc),
        !is_waiting(state, state.flushed(now).ssrc_to_user[ssrc]) || person
            <= state.flushed(now).ssrc_to_user[ssrc],
    ensures
        exists|other: u32|
            state.flushed(now).ssrc_to_user.contains_key(other) && #[trigger] state.flushed(
                now,
            ).ssrc_to_user[other] == person,
{
    let sources = in_order(state.placeholder_ssrcs());
    let users = in_order(state.unmapped_real());
    let after = state.flushed(now);
    let i = lemma_flushed_owner(state, now, ssrc);
    law_who_has_no_source(state, person);
    lemma_sources_finite(state);
    let k = lemma_place_of(state.unmapped_real(), person);
    if i < users.len() && k > i {
        assert(users[i] < users[k]);
    }
    assert(k < sources.len());
    assert(sources.to_set().contains(sources[k]));
    law_who_has_no_source(state, sources[k]);
    let other = sources[k] as u32;
    assert(other as u64 == sources[k]);
    let m = lemma_flushed_owner(state, now, other);
    if m < k {
        assert(sources[m] < sources[k]);
    }
    if k < m {
        assert(sources[k] < sources[m]);
    }
    assert(after.ssrc_to_user[other] == person);
}

/// No source of a placeholder has the number of a person without a source.
pub open spec fn no_number_twice(state: SessionState) -> bool {
    forall|ssrc: u32| #[trigger] stands_in(state, ssrc) ==> !is_waiting(state, ssrc as u64)
}

/// What a closed batch holds: the names that stay known, the instants between which its
/// audio came in, the next number, and every sample that came in.
pub proof fn law_batch_is_whole(batch: Batch, state: SessionState, now: Timestamp)
    requires
        state.wf(),
        is_batch(batch, state, now),
    ensures
        batch.number == state.batch_number + 1,
        batch.start@ == state.batch_start,
        batch.end == now,
        forall|id: u64| #[trigger]
            batch.user_names@.contains_key(id) <==> state.flushed(now@).names.contains_key(id),
        forall|id: u64| #[trigger]
            batch.user_names@.contains_key(id) ==> batch.user_names@[id]@ == state.names[id],
        forall|id: u64| #[trigger]
            batch.buffers@.contains_key(id) <==> batch.audio_offsets@.contains_key(id),
        total_samples(batch.buffers@.map_values(|b: Vec<i16>| b@)) == total_samples(state.audio),
{
    law_flush_keeps_who_is_known(state, now@);
    law_flush_hands_out_audio(state, now@);
    assert forall|id: u64| #[trigger] batch.user_names@.contains_key(id) <==> state.flushed(
        now@,
    ).names.contains_key(id) by {
        assert(names_view(batch.user_names@).contains_key(id) == batch.user_names@.contains_key(
            id,
        ));
    }
    assert forall|id: u64| #[trigger] batch.user_names@.contains_key(id) implies
        batch.user_names@[id]@ == state.names[id] by {
        assert(names_view(batch.user_names@).contains_key(id));
        assert(names_view(batch.user_names@)[id] == batch.user_names@[id]@);
        assert(state.flushed(now@).names.contains_key(id));
    }
    assert forall|id: u64| #[trigger] batch.buffers@.contains_key(id) <==>
        batch.audio_offsets@.contains_key(id) by {
        law_audio_is_timed(state, id);
        assert(audio_view(batch.buffers@).contains_key(id) == batch.buffers@.contains_key(id));
        assert(offsets_view(batch.audio_offsets@).contains_key(id)
            == batch.audio_offsets@.contains_key(id));
    }
    assert(batch.buffers@.map_values(|b: Vec<i16>| b@) =~= audio_view(batch.buffers@));
}

/// In a closed batch a person who got a source has, after what they had, the audio that
/// came in under the number of the source; the offset is their own or else that of the
/// source. All who have nothing to do with such a source have what they had.
pub proof fn law_batch_audio(batch: Batch, state: SessionState, now: Timestamp)
    requires
        state.wf(),
        no_number_twice(state),
        is_batch(batch, state, now),
    ensures
        forall|ssrc: u32|
            #![trigger stands_in(state, ssrc)]
            stands_in(state, ssrc) && state.flushed(now@).ssrc_to_user[ssrc]
                != state.ssrc_to_user[ssrc] ==> {
                let number = ssrc as u64;
                let owner = state.flushed(now@).ssrc_to_user[ssrc];
                let own = state.audio.contains_key(owner);
                &&& !batch.buffers@.contains_key(number)
                &&& state.audio.contains_key(number) ==> batch.buffers@.contains_key(owner)
                    && batch.buffers@[owner]@ == (if own {
                    state.audio[owner] + state.audio[number]
                } else {
                    state.audio[number]
                })
                &&& !state.audio.contains_key(number) && own ==> batch.buffers@.contains_key(owner)
                    && batch.buffers@[owner]@ == state.audio[owner]
                &&& state.offsets.contains_key(owner) ==> batch.audio_offsets@.contains_key(owner)
                    && batch.audio_offsets@[owner] == state.offsets[owner]
                &&& !state.offsets.contains_key(owner) && state.offsets.contains_key(number)
                    ==> batch.audio_offsets@.contains_key(owner) && batch.audio_offsets@[owner]
                    == state.offsets[number]
            },
        forall|id: u64|
            #![trigger batch.buffers@.contains_key(id)]
            !is_waiting(state, id) && (id > u32::MAX || !stands_in(state, id as u32)) ==> {
                &&& batch.buffers@.contains_key(id) == state.audio.contains_key(id)
                &&& state.audio.contains_key(id) ==> batch.buffers@[id]@ == state.audio[id]
                    && batch.audio_offsets@[id] == state.offsets[id]
            },
{
    let sources = in_order(state.placeholder_ssrcs());
    let users = in_order(state.unmapped_real());
    let n = pair_count(sources, users);
    let resolved = state.resolved();
    lemma_sources_finite(state);
    lemma_in_order_lists(state.placeholder_ssrcs());
    lemma_in_order_lists(state.unmapped_real());
    assert(numbers_apart(state)) by {
        assert forall|id: u64| #[trigger] state.placeholder_ssrcs().contains(id) implies
            !state.unmapped_real().contains(id) by {
            law_who_has_no_source(state, id);
            assert((id as u32) as u64 == id);
            assert(stands_in(state, id as u32));
        }
    }
    lemma_pairs_audio(state, sources, users, n);
    lemma_pairs_offsets(state, sources, users, n);
    assert forall|id: u64| batch.buffers@.contains_key(id) == resolved.audio.contains_key(id)
        && batch.buffers@.contains_key(id) == batch.audio_offsets@.contains_key(id)
        && resolved.offsets.contains_key(id) == resolved.audio.contains_key(id)
        && state.offsets.contains_key(id) == state.audio.contains_key(id) && (
    batch.buffers@.contains_key(id) ==> batch.buffers@[id]@ == resolved.audio[id]
        && batch.audio_offsets@[id] == resolved.offsets[id]) by {
        law_audio_is_timed(state, id);
        assert(audio_view(batch.buffers@).contains_key(id) == batch.buffers@.contains_key(id));
        assert(offsets_view(batch.audio_offsets@).contains_key(id)
            == batch.audio_offsets@.contains_key(id));
        if batch.buffers@.contains_key(id) {
            assert(audio_view(batch.buffers@)[id] == batch.buffers@[id]@);
            assert(offsets_view(batch.audio_offsets@)[id] == batch.audio_offsets@[id]);
        }
    }
    assert forall|ssrc: u32|
        #![trigger stands_in(state, ssrc)]
        stands_in(state, ssrc) && state.flushed(now@).ssrc_to_user[ssrc]
            != state.ssrc_to_user[ssrc] implies {
        let number = ssrc as u64;
        let owner = state.flushed(now@).ssrc_to_user[ssrc];
        let own = state.audio.contains_key(owner);
        &&& !batch.buffers@.contains_key(number)
        &&& state.audio.contains_key(number) ==> batch.buffers@.contains_key(owner)
            && batch.buffers@[owner]@ == (if own {
            state.audio[owner] + state.audio[number]
        } else {
            state.audio[number]
        })
        &&& !state.audio.contains_key(number) && own ==> batch.buffers@.contains_key(owner)
            && batch.buffers@[owner]@ == state.audio[owner]
        &&& state.offsets.contains_key(owner) ==> batch.audio_offsets@.contains_key(owner)
            && batch.audio_offsets@[owner] == state.offsets[owner]
        &&& !state.offsets.contains_key(owner) && state.offsets.contains_key(number)
            ==> batch.audio_offsets@.contains_key(owner) && batch.audio_offsets@[owner]
            == state.offsets[number]
    } by {
        let i = lemma_flushed_owner(state, now@, ssrc);
        let owner = users[i];
        let number = sources[i];
        assert(buffer_of(resolved.audio, users[i]) == buffer_of(state.audio, users[i]) + buffer_of(
            state.audio,
            sources[i],
        ));
        assert(!resolved.audio.contains_key(sources[i]));
        assert(offset_of(resolved.offsets, users[i]) == first_of(
            offset_of(state.offsets, users[i]),
            offset_of(state.offsets, sources[i]),
        ));
        assert(buffer_of(state.audio, owner) + Seq::<i16>::empty() =~= buffer_of(
            state.audio,
            owner,
        ));
        assert(Seq::<i16>::empty() + buffer_of(state.audio, number) =~= buffer_of(
            state.audio,
            number,
        ));
    }
    assert forall|id: u64|
        #![trigger batch.buffers@.contains_key(id)]
        !is_waiting(state, id) && (id > u32::MAX || !stands_in(state, id as u32)) implies {
        &&& batch.buffers@.contains_key(id) == state.audio.contains_key(id)
        &&& state.audio.contains_key(id) ==> batch.buffers@[id]@ == state.audio[id]
            && batch.audio_offsets@[id] == state.offsets[id]
    } by {
        law_who_has_no_source(state, id);
        lemma_paired_stand_in(state);
        assert(!among_first(sources, n, id));
        assert(!among_first(users, n, id)) by {
            if among_first(users, n, id) {
                let i = choose|i: int| 0 <= i < n && #[trigger] users[i] == id;
                assert(users.to_set().contains(users[i]));
            }
        }
        assert(buffer_of(resolved.audio, id) == buffer_of(state.audio, id));
        assert(offset_of(resolved.offsets, id) == offset_of(state.offsets, id));
    }
}

/// What is kept of a batch is what was heard in it, segment by segment, each that much
/// later as far as 128 bits hold it.
pub proof fn law_kept_segments(segments: Seq<SegmentView>, offset: int, i: int)
    requires
        0 <= i < segments.len(),
    ensures
        shifted(segments, offset).len() == segments.len(),
        shifted(segments, offset)[i].user == segments[i].user,
        shifted(segments, offset)[i].text == segments[i].text,
        i128::MIN <= segments[i].start + offset <= i128::MAX ==> shifted(segments, offset)[i].start
            == segments[i].start + offset,
        i128::MIN <= segments[i].end + offset <= i128::MAX ==> shifted(segments, offset)[i].end
            == segments[i].end + offset,
        segments[i].start + offset > i128::MAX ==> shifted(segments, offset)[i].start == i128::MAX,
        segments[i].start + offset < i128::MIN ==> shifted(segments, offset)[i].start == i128::MIN,
        segments[i].end + offset > i128::MAX ==> shifted(segments, offset)[i].end == i128::MAX,
        segments[i].end + offset < i128::MIN ==> shifted(segments, offset)[i].end == i128::MIN,
{
}

/// What makes a recording the same: its guild, its channels, its thread, its start and
/// its interval.
pub proof fn law_same_recording(a: RecordingSession, b: RecordingSession)
    ensures
        a.same_recording(b) ==> a.guild_id == b.guild_id && a.voice_channel_name
            == b.voice_channel_name && a.slack_channel == b.slack_channel && a.slack_thread_ts
            == b.slack_thread_ts && a.start_time == b.start_time && a.flush_interval_secs
            == b.flush_interval_secs,
        a.same_recording(a),
{
}

/// The views of a recording's maps and lists leave nothing out and change nothing.
pub proof fn law_views_are_faithful(
    buffers: HashMap<u64, Vec<i16>>,
    names: HashMap<u64, String>,
    offsets: HashMap<u64, i64>,
    segments: Seq<Segment>,
    id: u64,
    i: int,
)
    ensures
        audio_view(buffers@).contains_key(id) == buffers@.contains_key(id),
        buffers@.contains_key(id) ==> audio_view(buffers@)[id] == buffers@[id]@,
        names_view(names@).contains_key(id) == names@.contains_key(id),
        names@.contains_key(id) ==> names_view(names@)[id] == names@[id]@,
        offsets_view(offsets@).contains_key(id) == offsets@.contains_key(id),
        offsets@.contains_key(id) ==> offsets_view(offsets@)[id] == offsets@[id],
        segment_views(segments).len() == segments.len(),
        0 <= i < segments.len() ==> segment_views(segments)[i].user == segments[i].user@
            && segment_views(segments)[i].text == segments[i].text@
            && segment_views(segments)[i].start == segments[i].start
            && segment_views(segments)[i].end == segments[i].end,
{
}

} // verus!
