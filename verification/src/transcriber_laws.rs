//! What holds of the audio that the recognizer is given, and of what is kept of what it
//! heard.
use crate::session::{segment_views, Segment, SegmentView};
use crate::text::{ascii_lowercase, decimal, occurs_in, trimmed, words_of};
use crate::transcriber::{
    all_heard, frame_count, frame_sum, frames_sum, is_job_for, is_made_up, is_made_up_given,
    is_made_up_text, is_sorting_of, known_phrases, lowercase, mono_count, mono_frames,
    placeholder_name, raw_views, segment_of, segments_of, RawSegment, RawSegmentView,
    TranscriptionJob, MIN_SAMPLES_16K,
};
use std::collections::HashMap;
use vstd::multiset::Multiset;
use vstd::prelude::*;

verus! {

// ---------------------------------------------------------------------------
// Audio
// ---------------------------------------------------------------------------

/// Six samples, three frames of two channels, make one mono sample, their sum; what is
/// left at the end makes one more.
pub proof fn law_mono_samples(samples: Seq<i16>, k: int)
    requires
        0 <= k < mono_count(samples),
    ensures
        6 * (mono_count(samples) - 1) < samples.len() <= 6 * mono_count(samples),
        6 * k + 6 <= samples.len() ==> mono_frames(samples, k) == 3 && frames_sum(
            samples,
            3 * k,
            mono_frames(samples, k),
        ) == samples[6 * k] + samples[6 * k + 1] + samples[6 * k + 2] + samples[6 * k + 3]
            + samples[6 * k + 4] + samples[6 * k + 5],
        samples.len() == 6 * k + 5 ==> mono_frames(samples, k) == 3 && frames_sum(
            samples,
            3 * k,
            mono_frames(samples, k),
        ) == samples[6 * k] + samples[6 * k + 1] + samples[6 * k + 2] + samples[6 * k + 3]
            + samples[6 * k + 4],
        samples.len() == 6 * k + 4 ==> mono_frames(samples, k) == 2 && frames_sum(
            samples,
            3 * k,
            mono_frames(samples, k),
        ) == samples[6 * k] + samples[6 * k + 1] + samples[6 * k + 2] + samples[6 * k + 3],
        samples.len() == 6 * k + 3 ==> mono_frames(samples, k) == 2 && frames_sum(
            samples,
            3 * k,
            mono_frames(samples, k),
        ) == samples[6 * k] + samples[6 * k + 1] + samples[6 * k + 2],
        samples.len() == 6 * k + 2 ==> mono_frames(samples, k) == 1 && frames_sum(
            samples,
            3 * k,
            mono_frames(samples, k),
        ) == samples[6 * k] + samples[6 * k + 1],
        samples.len() == 6 * k + 1 ==> mono_frames(samples, k) == 1 && frames_sum(
            samples,
            3 * k,
            mono_frames(samples, k),
        ) == samples[6 * k],
{
    reveal_with_fuel(frames_sum, 4);
    assert(frame_sum(samples, 3 * k) == frame_sum(samples, 3 * k + 1 - 1));
}

/// No sound makes no mono sample. Half a second of sound and more is transcribed, and
/// nothing shorter: 8000 mono samples, which 47995 samples are the first to make.
pub proof fn law_half_a_second(samples: Seq<i16>)
    ensures
        samples.len() == 0 ==> mono_count(samples) == 0,
        mono_count(samples) >= MIN_SAMPLES_16K <==> samples.len() >= 47995,
        2 * frame_count(samples) == samples.len() || 2 * frame_count(samples) == samples.len() + 1,
{
}

// ---------------------------------------------------------------------------
// What was made up
// ---------------------------------------------------------------------------

/// A text in lower case that holds none of the phrases is made up exactly where it has
/// ten words or more and less than a fifth of them are different; one that holds a
/// phrase, in any case.
pub proof fn law_made_up_rule(lower: Seq<char>)
    ensures
        is_made_up(lower) <==> {
            ||| occurs_in(lower, "sous-titrage société radio-canada"@)
            ||| occurs_in(lower, "sous-titres réalisés par"@)
            ||| occurs_in(lower, "merci d'avoir regardé"@)
            ||| occurs_in(lower, "abonnez-vous à la chaîne"@)
            ||| occurs_in(lower, "n'oubliez pas de vous abonner"@)
            ||| occurs_in(lower, "transcribed by"@)
            ||| occurs_in(lower, "subtitles by"@)
            ||| occurs_in(lower, "www.zeoranger.co.uk"@)
            ||| 10 <= words_of(lower).len() && 5 * words_of(lower).to_set().len() < words_of(
                lower,
            ).len()
        },
{
    let phrases = known_phrases();
    assert(phrases.len() == 8);
    assert(phrases[0] == "sous-titrage société radio-canada"@);
    assert(phrases[1] == "sous-titres réalisés par"@);
    assert(phrases[2] == "merci d'avoir regardé"@);
    assert(phrases[3] == "abonnez-vous à la chaîne"@);
    assert(phrases[4] == "n'oubliez pas de vous abonner"@);
    assert(phrases[5] == "transcribed by"@);
    assert(phrases[6] == "subtitles by"@);
    assert(phrases[7] == "www.zeoranger.co.uk"@);
}

/// A text is made up exactly where, without the white space at its ends and in lower
/// case, it is.
pub proof fn law_made_up_in_lower_case(text: Seq<char>)
    ensures
        is_made_up(lowercase(ascii_lowercase(trimmed(text)))) ==> is_made_up_text(text),
        is_made_up_text(text) ==> is_made_up(lowercase(ascii_lowercase(trimmed(text))))
            || is_made_up(ascii_lowercase(trimmed(text))),
        is_made_up_given(text, ascii_lowercase(text)) == is_made_up(ascii_lowercase(text)),
{
}

// ---------------------------------------------------------------------------
// Segments of one speaker
// ---------------------------------------------------------------------------

/// What is kept of two lists, one after the other, is what is kept of each: no segment
/// decides on another.
pub proof fn law_segments_concat(
    username: Seq<char>,
    a: Seq<RawSegmentView>,
    b: Seq<RawSegmentView>,
    offset: i64,
)
    ensures
        segments_of(username, a + b, offset) == segments_of(username, a, offset) + segments_of(
            username,
            b,
            offset,
        ),
        segments_of(username, Seq::empty(), offset) == Seq::<SegmentView>::empty(),
    decreases b.len(),
{
    if b.len() == 0 {
        assert(a + b =~= a);
        assert(segments_of(username, a, offset) + Seq::<SegmentView>::empty() =~= segments_of(
            username,
            a,
            offset,
        ));
    } else {
        law_segments_concat(username, a, b.drop_last(), offset);
        assert((a + b).drop_last() =~= a + b.drop_last());
        assert((a + b).last() == b.last());
        assert(segments_of(username, a + b, offset) =~= segments_of(username, a, offset)
            + segments_of(username, b, offset));
    }
}

/// One raw segment gives one segment where its text was read and is neither blank nor
/// made up, else none. That segment is the speaker's, has the text without the white
/// space at its ends, and the times in milliseconds from the start of the batch; a time
/// that was not read is that of the start of the audio.
pub proof fn law_one_segment(username: Seq<char>, raw: RawSegmentView, offset: i64)
    ensures
        ({
            let kept = segments_of(username, seq![raw], offset);
            &&& match raw.text {
                Some(text) => kept.len() == if trimmed(text).len() > 0 && !is_made_up_text(text) {
                    1int
                } else {
                    0
                },
                None => kept.len() == 0,
            }
            &&& kept.len() == 1 ==> {
                &&& kept[0].user == username
                &&& Some(kept[0].text) == match raw.text {
                    Some(text) => Some(trimmed(text)),
                    None => None,
                }
                &&& (raw.t0 matches Some(t) ==> kept[0].start == 10 * t + offset)
                &&& (raw.t0 is None ==> kept[0].start == offset)
                &&& (raw.t1 matches Some(t) ==> kept[0].end == 10 * t + offset)
                &&& (raw.t1 is None ==> kept[0].end == offset)
            }
        }),
{
    assert(seq![raw].drop_last() =~= Seq::<RawSegmentView>::empty());
    assert(segments_of(username, seq![raw].drop_last(), offset) =~= Seq::<SegmentView>::empty());
    assert(seq![raw].last() == raw);
}

/// Each raw segment that is kept on its own is kept in the list, in its place among the
/// others.
pub proof fn law_each_is_kept(username: Seq<char>, raw: Seq<RawSegmentView>, offset: i64, i: int)
    requires
        0 <= i < raw.len(),
    ensures
        segments_of(username, raw, offset) == segments_of(username, raw.take(i), offset)
            + segments_of(username, seq![raw[i]], offset) + segments_of(
            username,
            raw.skip(i + 1),
            offset,
        ),
        (segment_of(username, raw[i], offset) matches Some(segment) ==> segments_of(
            username,
            seq![raw[i]],
            offset,
        ) == seq![segment] && segments_of(username, raw, offset).contains(segment)),
{
    let one = seq![raw[i]];
    law_segments_concat(username, raw.take(i), one, offset);
    law_segments_concat(username, raw.take(i) + one, raw.skip(i + 1), offset);
    assert(raw =~= raw.take(i) + one + raw.skip(i + 1));
    assert(one.drop_last() =~= Seq::<RawSegmentView>::empty());
    assert(segments_of(username, one.drop_last(), offset) =~= Seq::<SegmentView>::empty());
    assert(one.last() == raw[i]);
    match segment_of(username, raw[i], offset) {
        Some(segment) => {
            assert(segments_of(username, one, offset) =~= seq![segment]);
            let at = segments_of(username, raw.take(i), offset).len() as int;
            assert(segments_of(username, raw, offset)[at] == segment);
        },
        None => {},
    }
}

/// The views of raw segments leave nothing out and change nothing.
pub proof fn law_raw_views(raw: Seq<RawSegment>, i: int)
    requires
        0 <= i < raw.len(),
    ensures
        raw_views(raw).len() == raw.len(),
        raw_views(raw)[i].t0 == raw[i].t0,
        raw_views(raw)[i].t1 == raw[i].t1,
        (raw[i].text matches Some(text) ==> raw_views(raw)[i].text == Some(text@)),
        raw[i].text is None ==> raw_views(raw)[i].text is None,
{
}

// ---------------------------------------------------------------------------
// All speakers
// ---------------------------------------------------------------------------

/// What was heard of one speaker.
pub open spec fn heard_of(result: Option<Vec<Segment>>) -> Seq<SegmentView> {
    match result {
        Some(segments) => segments@.map_values(|s: Segment| s@),
        None => Seq::empty(),
    }
}

/// All that was heard is what was heard of each speaker, one after the other.
pub proof fn law_all_are_heard(results: Seq<Option<Vec<Segment>>>)
    ensures
        all_heard(results) == results.map_values(
            |result: Option<Vec<Segment>>| heard_of(result),
        ).flatten(),
    decreases results.len(),
{
    let each = results.map_values(|result: Option<Vec<Segment>>| heard_of(result));
    if results.len() > 0 {
        let init = results.drop_last();
        let each_init = init.map_values(|result: Option<Vec<Segment>>| heard_of(result));
        law_all_are_heard(init);
        each_init.lemma_flatten_push(heard_of(results.last()));
        assert(each =~= each_init.push(heard_of(results.last())));
        assert(all_heard(results) =~= all_heard(init) + heard_of(results.last()));
    } else {
        assert(each =~= Seq::empty());
    }
}

/// What was heard of two lists of speakers is what was heard of each.
pub proof fn law_heard_concat(a: Seq<Option<Vec<Segment>>>, b: Seq<Option<Vec<Segment>>>)
    ensures
        all_heard(a + b) == all_heard(a) + all_heard(b),
    decreases b.len(),
{
    if b.len() == 0 {
        assert(a + b =~= a);
        assert(all_heard(a) + Seq::<SegmentView>::empty() =~= all_heard(a));
    } else {
        law_heard_concat(a, b.drop_last());
        assert((a + b).drop_last() =~= a + b.drop_last());
        assert((a + b).last() == b.last());
        assert(all_heard(a + b) =~= all_heard(a) + all_heard(b));
    }
}

/// The segments of all speakers as a bag.
pub open spec fn bag_of(results: Seq<Option<Vec<Segment>>>) -> Multiset<SegmentView>
    decreases results.len(),
{
    if results.len() == 0 {
        Multiset::empty()
    } else {
        heard_of(results.first()).to_multiset().add(bag_of(results.drop_first()))
    }
}

/// How many segments there are of all speakers.
pub open spec fn count_of(results: Seq<Option<Vec<Segment>>>) -> nat
    decreases results.len(),
{
    if results.len() == 0 {
        0
    } else {
        heard_of(results.first()).len() + count_of(results.drop_first())
    }
}

proof fn lemma_bag(results: Seq<Option<Vec<Segment>>>)
    ensures
        all_heard(results).to_multiset() == bag_of(results),
        all_heard(results).len() == count_of(results),
    decreases results.len(),
{
    broadcast use vstd::seq_lib::group_to_multiset_ensures;

    if results.len() > 0 {
        let first = seq![results.first()];
        let rest = results.drop_first();
        lemma_bag(rest);
        law_heard_concat(first, rest);
        assert(results =~= first + rest);
        assert(first.drop_last() =~= Seq::<Option<Vec<Segment>>>::empty());
        assert(all_heard(first.drop_last()) =~= Seq::<SegmentView>::empty());
        assert(first.last() == results.first());
        assert(all_heard(first) =~= heard_of(results.first()));
        vstd::seq_lib::lemma_multiset_commutative(all_heard(first), all_heard(rest));
    } else {
        assert(all_heard(results) =~= Seq::<SegmentView>::empty());
    }
}

/// Merging loses nothing and makes nothing up: the segments of all speakers come out,
/// each as often as it was heard, so many as there are of all of them together. They
/// stand in the order of their starts, and those with the same start in the order in
/// which the speakers said them.
pub proof fn law_merge(results: Seq<Option<Vec<Segment>>>, merged: Seq<Segment>, start: int)
    requires
        is_sorting_of(segment_views(merged), all_heard(results)),
    ensures
        merged.map_values(|s: Segment| s@).to_multiset() == bag_of(results),
        merged.len() == count_of(results),
        forall|i: int, j: int|
            0 <= i < j < merged.len() ==> (#[trigger] merged[i]).start <= (
            #[trigger] merged[j]).start,
        merged.map_values(|s: Segment| s@).filter(|s: SegmentView| s.start == start)
            == results.map_values(
            |result: Option<Vec<Segment>>| heard_of(result),
        ).flatten().filter(|s: SegmentView| s.start == start),
{
    broadcast use vstd::seq_lib::group_to_multiset_ensures;

    let views = merged.map_values(|s: Segment| s@);
    assert(views =~= segment_views(merged));
    lemma_bag(results);
    law_all_are_heard(results);
    assert(views.to_multiset().len() == views.len());
    assert(all_heard(results).to_multiset().len() == all_heard(results).len());
    assert forall|i: int, j: int| 0 <= i < j < merged.len() implies (#[trigger] merged[i]).start
        <= (#[trigger] merged[j]).start by {
        assert(segment_views(merged)[i].start <= segment_views(merged)[j].start);
    }
    assert(crate::transcriber::starting_at(segment_views(merged), start)
        == crate::transcriber::starting_at(all_heard(results), start));
}

/// Whatever a speaker said is in the merged list.
pub proof fn law_merge_keeps_each(
    results: Seq<Option<Vec<Segment>>>,
    merged: Seq<Segment>,
    i: int,
    k: int,
)
    requires
        is_sorting_of(segment_views(merged), all_heard(results)),
        0 <= i < results.len(),
        0 <= k < heard_of(results[i]).len(),
    ensures
        merged.map_values(|s: Segment| s@).contains(heard_of(results[i])[k]),
{
    broadcast use vstd::seq_lib::group_to_multiset_ensures;

    let one = seq![results[i]];
    let segment = heard_of(results[i])[k];
    let views = merged.map_values(|s: Segment| s@);
    assert(views =~= segment_views(merged));
    law_heard_concat(results.take(i), one);
    law_heard_concat(results.take(i) + one, results.skip(i + 1));
    assert(results =~= results.take(i) + one + results.skip(i + 1));
    assert(one.drop_last() =~= Seq::<Option<Vec<Segment>>>::empty());
    assert(all_heard(one.drop_last()) =~= Seq::<SegmentView>::empty());
    assert(one.last() == results[i]);
    assert(all_heard(one) =~= heard_of(results[i]));
    let at = all_heard(results.take(i)).len() + k;
    assert(all_heard(results)[at] == segment);
    assert(all_heard(results).contains(segment));
    assert(all_heard(results).to_multiset().count(segment) > 0);
    assert(views.to_multiset().count(segment) > 0);
}

/// The job of a speaker has all their samples, the name that is known of them or else
/// one made of their number, and the offset that is known or else none.
pub proof fn law_job(
    job: TranscriptionJob,
    user_id: u64,
    buffers: HashMap<u64, Vec<i16>>,
    names: HashMap<u64, String>,
    offsets: HashMap<u64, i64>,
)
    requires
        is_job_for(job, user_id, buffers@, names@, offsets@),
    ensures
        job.user_id == user_id,
        job.samples@ == buffers@[user_id]@,
        names@.contains_key(user_id) ==> job.username@ == names@[user_id]@,
        !names@.contains_key(user_id) ==> job.username@ == seq!['U', 's', 'e', 'r', '#'] + decimal(
            user_id as nat,
        ),
        offsets@.contains_key(user_id) ==> job.offset == offsets@[user_id],
        !offsets@.contains_key(user_id) ==> job.offset == 0,
        placeholder_name(user_id as nat) == seq!['U', 's', 'e', 'r', '#'] + decimal(user_id as nat),
{
    reveal_strlit("User#");
    assert("User#"@ =~= seq!['U', 's', 'e', 'r', '#']);
}

} // verus!
