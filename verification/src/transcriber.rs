//! What surrounds the speech recognizer: the audio that it is given, and the
//! segments that are kept of what it heard.
use crate::ids::keys_of;
use crate::session::{segment_views, Segment, SegmentView};
use crate::text::{
    ascii_lowercase, ascii_uppercase, chars_of, contains, decimal, is_ascii_text, is_blank,
    law_blanks_trimmed, law_trimmed_twice, lemma_lowercase_twice, lemma_trimmed_around,
    lemma_uppercase_trimmed, lower_ascii, occurs_at, occurs_in, push_decimal, split_words, texts, trim, trim_end, trim_start, trimmed,
    white_space, words_of,
};
use std::collections::HashMap;
use vstd::prelude::*;

verus! {

broadcast use {vstd::string::group_string_axioms, vstd::std_specs::hash::group_hash_axioms};

// ---------------------------------------------------------------------------
// Audio
// ---------------------------------------------------------------------------

/// Audio shorter than this many samples at 16 kHz, half a second, is not
/// transcribed.
pub const MIN_SAMPLES_16K: usize = 8000;

/// One mono sample at 16 kHz: the sum of both channels over some frames at
/// 48 kHz. As a number from -1 to 1 it is `sum / 65536 / frames`.
#[derive(Clone, Copy, PartialEq, Eq, Structural, Debug)]
pub struct MonoSample {
    pub sum: i32,
    pub frames: u32,
}

/// How many stereo frames the samples make. The last may lack its right channel.
pub open spec fn frame_count(samples: Seq<i16>) -> nat {
    ((samples.len() + 1) / 2) as nat
}

/// Both channels of a frame together; a missing right channel is silent.
pub open spec fn frame_sum(samples: Seq<i16>, frame: int) -> int {
    samples[2 * frame] + if 2 * frame + 1 < samples.len() {
        samples[2 * frame + 1] as int
    } else {
        0
    }
}

/// The sum of `count` frames from `first` on.
pub open spec fn frames_sum(samples: Seq<i16>, first: int, count: nat) -> int
    decreases count,
{
    if count == 0 {
        0
    } else {
        frames_sum(samples, first, (count - 1) as nat) + frame_sum(samples, first + count - 1)
    }
}

/// How many mono samples the audio makes: one for three frames, and one for what
/// is left at the end.
pub open spec fn mono_count(samples: Seq<i16>) -> nat {
    ((frame_count(samples) + 2) / 3) as nat
}

/// How many frames the mono sample `k` takes together.
pub open spec fn mono_frames(samples: Seq<i16>, k: int) -> nat {
    if frame_count(samples) - 3 * k < 3 {
        (frame_count(samples) - 3 * k) as nat
    } else {
        3
    }
}

/// Brings the samples of a voice channel, stereo at 48 kHz, down to mono at
/// 16 kHz: each mono sample takes three frames together.
pub fn pcm_to_whisper(samples: &[i16]) -> (r: Vec<MonoSample>)
    ensures
        r@.len() == mono_count(samples@),
        forall|k: int|
            0 <= k < r@.len() ==> (#[trigger] r@[k]).frames == mono_frames(samples@, k) && r@[k].sum
                == frames_sum(samples@, 3 * k, mono_frames(samples@, k)),
{
    let n: usize = samples.len();
    let mut r: Vec<MonoSample> = Vec::new();
    let mut i: usize = 0;
    while i < n
        invariant
            n == samples@.len(),
            i <= n,
            i < n ==> i == 6 * r@.len(),
            i == n ==> r@.len() == mono_count(samples@),
            r@.len() <= mono_count(samples@),
            forall|k: int|
                0 <= k < r@.len() ==> (#[trigger] r@[k]).frames == mono_frames(samples@, k)
                    && r@[k].sum == frames_sum(samples@, 3 * k, mono_frames(samples@, k)),
        decreases n - i,
    {
        let ghost k = r@.len() as int;
        let ghost first = i as int;
        let mut sum: i32 = 0;
        let mut frames: u32 = 0;
        while frames < 3 && i < n
            invariant
                n == samples@.len(),
                first <= i <= n,
                first == 6 * k,
                frames <= 3,
                i < n ==> i == first + 2 * frames,
                i == n ==> 3 * k + frames == frame_count(samples@),
                3 * k + frames <= frame_count(samples@),
                sum == frames_sum(samples@, 3 * k, frames as nat),
                -65536 * frames <= sum <= 65534 * frames,
            decreases n - i,
        {
            let left: i32 = samples[i] as i32;
            let right: i32 = if n - i > 1 {
                samples[i + 1] as i32
            } else {
                0
            };
            assert(frame_sum(samples@, 3 * k + frames) == left + right);
            sum += left + right;
            frames += 1;
            if n - i > 2 {
                i += 2;
            } else {
                i = n;
            }
        }
        r.push(MonoSample { sum, frames });
        assert(frames == mono_frames(samples@, k));
    }
    r
}

/// The audio of a speaker as the recognizer takes it; `None` where it is too
/// short to be transcribed.
pub fn prepare_audio(samples: &[i16]) -> (r: Option<Vec<MonoSample>>)
    ensures
        r is Some <==> mono_count(samples@) >= MIN_SAMPLES_16K,
        r matches Some(audio) ==> audio@.len() == mono_count(samples@) && forall|k: int|
            0 <= k < audio@.len() ==> (#[trigger] audio@[k]).frames == mono_frames(samples@, k)
                && audio@[k].sum == frames_sum(samples@, 3 * k, mono_frames(samples@, k)),
{
    let audio = pcm_to_whisper(samples);
    if audio.len() < MIN_SAMPLES_16K {
        None
    } else {
        Some(audio)
    }
}

// ---------------------------------------------------------------------------
// Hallucinations
// ---------------------------------------------------------------------------

/// What the recognizer makes up on silence or noise: it comes from the subtitles
/// that it was trained on.
pub open spec fn known_phrases() -> Seq<Seq<char>> {
    seq![
        "sous-titrage société radio-canada"@,
        "sous-titres réalisés par"@,
        "merci d'avoir regardé"@,
        "abonnez-vous à la chaîne"@,
        "n'oubliez pas de vous abonner"@,
        "transcribed by"@,
        "subtitles by"@,
        "www.zeoranger.co.uk"@,
    ]
}

/// The text holds one of the known phrases.
pub open spec fn holds_known_phrase(lower: Seq<char>) -> bool {
    exists|i: int|
        0 <= i < known_phrases().len() && occurs_in(lower, #[trigger] known_phrases()[i])
}

/// The text has ten words or more, and less than a fifth of them are different.
pub open spec fn is_repetitive(lower: Seq<char>) -> bool {
    let words = words_of(lower);
    words.len() >= 10 && words.to_set().len() * 5 < words.len()
}

/// The text, in lower case, is one that the recognizer made up.
pub open spec fn is_made_up(lower: Seq<char>) -> bool {
    holds_known_phrase(lower) || is_repetitive(lower)
}

/// The text, also given in lower case, is one that the recognizer made up. A known
/// phrase counts also where only the ASCII capitals of the text are taken as lower case.
pub open spec fn is_made_up_given(text: Seq<char>, lower: Seq<char>) -> bool {
    holds_known_phrase(ascii_lowercase(text)) || is_made_up(lower)
}

/// The text in lower case: first its ASCII capitals, then all else.
pub open spec fn in_lower_case(text: Seq<char>) -> Seq<char> {
    lowercase(ascii_lowercase(text))
}

/// The text, without the white space at its ends, is one that the recognizer made up.
pub open spec fn is_made_up_text(text: Seq<char>) -> bool {
    is_made_up_given(trimmed(text), in_lower_case(trimmed(text)))
}

/// The text in lower case, as `str::to_lowercase` of the standard library gives
/// it.
pub uninterp spec fn lowercase(text: Seq<char>) -> Seq<char>;

/// `str::to_lowercase`: the lower case of the text by the tables of Unicode, which the
/// name `lowercase` stands for. Of a text in ASCII that is each capital from A to Z as
/// its lower-case letter, and all else unchanged; of other texts nothing more is
/// claimed.
#[verifier::external_body]
fn to_lowercase(text: &str) -> (r: String)
    ensures
        r@ == lowercase(text@),
        is_ascii_text(text@) ==> r@ == ascii_lowercase(text@),
{
    text.to_lowercase()
}

/// Counts the different words of a list.
fn count_distinct(words: &Vec<String>) -> (r: usize)
    ensures
        r == texts(words@).to_set().len(),
        r <= words@.len(),
{
    let ghost all = texts(words@);
    let mut count: usize = 0;
    assert(all.take(0).to_set() =~= Set::empty());
    for i in 0..words.len()
        invariant
            all == texts(words@),
            count <= i,
            count == all.take(i as int).to_set().len(),
            all.take(i as int).to_set().finite(),
    {
        let mut seen = false;
        let mut k: usize = 0;
        while k < i && !seen
            invariant
                all == texts(words@),
                i < words@.len(),
                k <= i,
                seen <==> all.take(k as int).contains(all[i as int]),
            decreases i - k,
        {
            let ghost before = all.take(k as int);
            assert(all.take(k + 1) =~= before.push(all[k as int]));
            assert(all.take(k + 1)[k as int] == all[k as int]);
            if words[k] == words[i] {
                seen = true;
            } else {
                assert(!all.take(k + 1).contains(all[i as int]));
            }
            k += 1;
        }
        proof {
            let before = all.take(i as int);
            let word = all[i as int];
            assert(all.take(i + 1) =~= before.push(word));
            before.lemma_push_to_set_commute(word);
            if seen {
                let found = all.take(k as int);
                let j = choose|j: int| 0 <= j < found.len() && found[j] == word;
                assert(before[j] == word);
            } else {
                assert(before =~= all.take(k as int));
            }
        }
        if !seen {
            count += 1;
        }
    }
    assert(all.take(all.len() as int) =~= all);
    count
}

/// Whether the text, in lower case, holds one of the known phrases.
fn find_known_phrase(lower: &str) -> (r: bool)
    ensures
        r == holds_known_phrase(lower@),
{
    let phrases: [&str; 8] = [
        "sous-titrage société radio-canada",
        "sous-titres réalisés par",
        "merci d'avoir regardé",
        "abonnez-vous à la chaîne",
        "n'oubliez pas de vous abonner",
        "transcribed by",
        "subtitles by",
        "www.zeoranger.co.uk",
    ];
    let chars = chars_of(lower);
    assert(forall|k: int| 0 <= k < 8 ==> (#[trigger] phrases@[k])@ == known_phrases()[k]);
    let mut i: usize = 0;
    while i < 8
        invariant
            i <= 8,
            chars@ == lower@,
            forall|k: int| 0 <= k < 8 ==> (#[trigger] phrases@[k])@ == known_phrases()[k],
            forall|k: int| 0 <= k < i ==> !occurs_in(lower@, #[trigger] known_phrases()[k]),
        decreases 8 - i,
    {
        let phrase = chars_of(phrases[i]);
        assert(phrases@[i as int]@ == known_phrases()[i as int]);
        if contains(&chars, &phrase) {
            return true;
        }
        i += 1;
    }
    false
}

/// Whether a text, given in lower case, is one that the recognizer made up.
pub fn is_hallucination_lower(lower: &str) -> (r: bool)
    ensures
        r == is_made_up(lower@),
{
    if find_known_phrase(lower) {
        return true;
    }
    let words = split_words(lower);
    if words.len() >= 10 {
        let unique: usize = count_distinct(&words);
        if unique as u128 * 5 < words.len() as u128 {
            return true;
        }
    }
    false
}

/// Whether a text, also given in lower case, is one that the recognizer made up.
pub fn is_hallucination_given(text: &str, lower: &str) -> (r: bool)
    ensures
        r == is_made_up_given(text@, lower@),
{
    find_known_phrase(lower_ascii(text).as_str()) || is_hallucination_lower(lower)
}

/// Whether a text is one that the recognizer made up. Its ASCII capitals are lowered
/// first, which makes no difference to the tables of Unicode.
pub fn is_hallucination(text: &str) -> (r: bool)
    ensures
        r == is_made_up_text(text@),
        is_ascii_text(trimmed(text@)) ==> r == is_made_up(ascii_lowercase(trimmed(text@))),
{
    proof {
        lemma_lowercase_twice(trimmed(text@));
    }
    let text = trim(text);
    let lower = to_lowercase(lower_ascii(text.as_str()).as_str());
    is_hallucination_given(text.as_str(), lower.as_str())
}

/// Neither white space around a text nor the case of its ASCII letters decides whether
/// it was made up.
pub proof fn law_made_up_blanks_and_case(before: Seq<char>, text: Seq<char>, after: Seq<char>)
    requires
        is_blank(before),
        is_blank(after),
    ensures
        is_made_up_text(before + ascii_uppercase(text) + after) == is_made_up_text(text),
        is_made_up_text(before + text + after) == is_made_up_text(text),
        is_made_up_text(trimmed(text)) == is_made_up_text(text),
{
    law_blanks_trimmed(before, ascii_uppercase(text), after);
    law_blanks_trimmed(before, text, after);
    law_trimmed_twice(text);
    lemma_uppercase_trimmed(text);
    lemma_uppercase_trimmed(trimmed(text));
}

/// Each known phrase begins and ends with a letter, and has no capital.
proof fn lemma_phrase_shape(i: int)
    requires
        0 <= i < known_phrases().len(),
    ensures
        known_phrases()[i].len() > 0,
        !white_space(known_phrases()[i][0]),
        !white_space(known_phrases()[i].last()),
        ascii_lowercase(known_phrases()[i]) == known_phrases()[i],
{
    reveal_strlit("sous-titrage société radio-canada");
    reveal_strlit("sous-titres réalisés par");
    reveal_strlit("merci d'avoir regardé");
    reveal_strlit("abonnez-vous à la chaîne");
    reveal_strlit("n'oubliez pas de vous abonner");
    reveal_strlit("transcribed by");
    reveal_strlit("subtitles by");
    reveal_strlit("www.zeoranger.co.uk");
    assert(ascii_lowercase(known_phrases()[i]) =~= known_phrases()[i]);
}

/// A known phrase suffices, whatever stands before and after it.
pub proof fn law_phrase_anywhere(before: Seq<char>, i: int, after: Seq<char>)
    requires
        0 <= i < known_phrases().len(),
    ensures
        is_made_up_text(before + known_phrases()[i] + after),
        is_made_up(before + known_phrases()[i] + after),
{
    let phrase = known_phrases()[i];
    lemma_phrase_stands(before, i, after);
    lemma_phrase_shape(i);
    lemma_trimmed_around(before, phrase, after);
    let head = ascii_lowercase(trim_start(before));
    let tail = ascii_lowercase(trim_end(after));
    assert(ascii_lowercase(trim_start(before) + phrase + trim_end(after)) =~= head
        + ascii_lowercase(phrase) + tail);
    lemma_phrase_stands(head, i, tail);
}

proof fn lemma_phrase_stands(before: Seq<char>, i: int, after: Seq<char>)
    requires
        0 <= i < known_phrases().len(),
    ensures
        holds_known_phrase(before + known_phrases()[i] + after),
{
    let phrase = known_phrases()[i];
    let text = before + phrase + after;
    let at = before.len() as int;
    assert(text.subrange(at, at + phrase.len()) =~= phrase);
    assert(occurs_at(text, phrase, at));
}

// ---------------------------------------------------------------------------
// Segments of one speaker
// ---------------------------------------------------------------------------

/// A segment as the recognizer hands it out. What could not be read is `None`;
/// the times are in hundredths of a second from the start of the audio.
#[derive(Debug)]
pub struct RawSegment {
    pub text: Option<String>,
    pub t0: Option<i64>,
    pub t1: Option<i64>,
}

/// A raw segment, with its text as a sequence of characters.
pub struct RawSegmentView {
    pub text: Option<Seq<char>>,
    pub t0: Option<i64>,
    pub t1: Option<i64>,
}

impl View for RawSegment {
    type V = RawSegmentView;

    open spec fn view(&self) -> RawSegmentView {
        RawSegmentView {
            text: match self.text {
                Some(text) => Some(text@),
                None => None,
            },
            t0: self.t0,
            t1: self.t1,
        }
    }
}

pub open spec fn raw_views(raw: Seq<RawSegment>) -> Seq<RawSegmentView> {
    raw.map_values(|s: RawSegment| s@)
}

/// A time of the recognizer in milliseconds, counted from the start of the batch:
/// the audio starts `offset` milliseconds into it. A time that could not be read
/// is taken for the start of the audio.
pub open spec fn batch_millis(centis: Option<i64>, offset: i64) -> int {
    match centis {
        Some(t) => t * 10 + offset,
        None => offset as int,
    }
}

/// The segment that is made of a text of the recognizer, without white space at
/// its ends and also given in lower case; none where the text is empty or made up.
pub open spec fn kept_segment(
    username: Seq<char>,
    text: Seq<char>,
    lower: Seq<char>,
    t0: Option<i64>,
    t1: Option<i64>,
    offset: i64,
) -> Option<SegmentView> {
    if text.len() == 0 || is_made_up_given(text, lower) {
        None
    } else {
        Some(
            SegmentView {
                user: username,
                start: batch_millis(t0, offset),
                end: batch_millis(t1, offset),
                text,
            },
        )
    }
}

/// The segment that is made of a raw segment, if any.
pub open spec fn segment_of(username: Seq<char>, raw: RawSegmentView, offset: i64) -> Option<
    SegmentView,
> {
    match raw.text {
        Some(text) => kept_segment(
            username,
            trimmed(text),
            in_lower_case(trimmed(text)),
            raw.t0,
            raw.t1,
            offset,
        ),
        None => None,
    }
}

/// The segments of a speaker, in the order in which the recognizer gave them.
pub open spec fn segments_of(username: Seq<char>, raw: Seq<RawSegmentView>, offset: i64) -> Seq<
    SegmentView,
>
    decreases raw.len(),
{
    if raw.len() == 0 {
        Seq::empty()
    } else {
        let before = segments_of(username, raw.drop_last(), offset);
        match segment_of(username, raw.last(), offset) {
            Some(segment) => before.push(segment),
            None => before,
        }
    }
}

/// Of what the recognizer gave as text, all is kept but what is blank or made up.
pub proof fn law_kept_unless_made_up(username: Seq<char>, raw: RawSegmentView, offset: i64)
    ensures
        segment_of(username, raw, offset) is Some <==> (raw.text matches Some(text)
            && trimmed(text).len() > 0 && !is_made_up_text(text)),
{
}

fn to_batch_millis(centis: Option<i64>, offset: i64) -> (r: i128)
    ensures
        r == batch_millis(centis, offset),
{
    match centis {
        Some(t) => t as i128 * 10 + offset as i128,
        None => offset as i128,
    }
}

/// Makes a segment of a text of the recognizer, which has no white space at its
/// ends and is also given in lower case; none where it is empty or made up.
pub fn keep_segment(
    username: &str,
    text: String,
    lower: &str,
    t0: Option<i64>,
    t1: Option<i64>,
    offset: i64,
) -> (r: Option<Segment>)
    ensures
        r is Some <==> kept_segment(username@, text@, lower@, t0, t1, offset) is Some,
        r matches Some(s) ==> Some(s@) == kept_segment(username@, text@, lower@, t0, t1, offset),
{
    if text.as_str().is_empty() || is_hallucination_given(text.as_str(), lower) {
        return None;
    }
    Some(
        Segment {
            user: username.to_owned(),
            start: to_batch_millis(t0, offset),
            end: to_batch_millis(t1, offset),
            text,
        },
    )
}

/// The segments of a speaker, whose audio starts `offset` milliseconds into the
/// batch: what the recognizer heard, without what it made up. `None` stands for
/// audio that it failed on, which gives no segment.
pub fn user_segments(username: &str, heard: &Option<Vec<RawSegment>>, offset: i64) -> (r: Vec<
    Segment,
>)
    ensures
        segment_views(r@) == match heard {
            Some(raw) => segments_of(username@, raw_views(raw@), offset),
            None => Seq::empty(),
        },
{
    let mut r: Vec<Segment> = Vec::new();
    assert(segment_views(r@) =~= Seq::empty());
    match heard {
        None => r,
        Some(raw) => {
            let ghost all = raw_views(raw@);
            for i in 0..raw.len()
                invariant
                    all == raw_views(raw@),
                    segment_views(r@) == segments_of(username@, all.take(i as int), offset),
            {
                assert(all.take(i + 1).drop_last() =~= all.take(i as int));
                assert(all.take(i + 1).last() == raw@[i as int]@);
                let ghost before = segment_views(r@);
                match &raw[i].text {
                    Some(text) => {
                        let text = trim(text.as_str());
                        let lower = to_lowercase(lower_ascii(text.as_str()).as_str());
                        match keep_segment(
                            username,
                            text,
                            lower.as_str(),
                            raw[i].t0,
                            raw[i].t1,
                            offset,
                        ) {
                            Some(segment) => {
                                let ghost last = segment@;
                                r.push(segment);
                                assert(segment_views(r@) =~= before.push(last));
                            },
                            None => {},
                        }
                    },
                    None => {},
                }
            }
            assert(all.take(all.len() as int) =~= all);
            r
        },
    }
}

// ---------------------------------------------------------------------------
// All speakers of a batch
// ---------------------------------------------------------------------------

/// The audio of one speaker, to be transcribed.
#[derive(Debug)]
pub struct TranscriptionJob {
    pub user_id: u64,
    pub username: String,
    pub samples: Vec<i16>,
    pub offset: i64,
}

/// The name under which a speaker without a known name appears.
pub open spec fn placeholder_name(id: nat) -> Seq<char> {
    "User#"@ + decimal(id)
}

/// Makes the name under which a speaker without a known name appears.
pub fn fmt_placeholder_name(id: u64) -> (r: String)
    ensures
        r@ == placeholder_name(id as nat),
{
    let mut r = "User#".to_owned();
    push_decimal(&mut r, id);
    r
}

/// The job is the one for that speaker: the whole audio, the name that is known or
/// the one made of the number, and the time at which the audio starts, if known.
pub open spec fn is_job_for(
    job: TranscriptionJob,
    user_id: u64,
    buffers: Map<u64, Vec<i16>>,
    user_names: Map<u64, String>,
    audio_offsets: Map<u64, i64>,
) -> bool {
    &&& job.user_id == user_id
    &&& job.samples@ == buffers[user_id]@
    &&& job.username@ == if user_names.contains_key(user_id) {
        user_names[user_id]@
    } else {
        placeholder_name(user_id as nat)
    }
    &&& job.offset == if audio_offsets.contains_key(user_id) {
        audio_offsets[user_id] as int
    } else {
        0
    }
}

/// What is to be transcribed of a batch: one job for each speaker with audio, in
/// no particular order.
pub fn transcription_jobs(
    buffers: &HashMap<u64, Vec<i16>>,
    user_names: &HashMap<u64, String>,
    audio_offsets: &HashMap<u64, i64>,
) -> (r: Vec<TranscriptionJob>)
    ensures
        r@.len() == buffers@.dom().len(),
        forall|i: int|
            0 <= i < r@.len() ==> buffers@.contains_key((#[trigger] r@[i]).user_id) && is_job_for(
                r@[i],
                r@[i].user_id,
                buffers@,
                user_names@,
                audio_offsets@,
            ),
        forall|i: int, j: int|
            0 <= i < j < r@.len() ==> (#[trigger] r@[i]).user_id != (#[trigger] r@[j]).user_id,
        forall|id: u64| #[trigger]
            buffers@.contains_key(id) ==> exists|i: int|
                0 <= i < r@.len() && (#[trigger] r@[i]).user_id == id,
{
    let ids = keys_of(buffers);
    let mut r: Vec<TranscriptionJob> = Vec::new();
    for i in 0..ids.len()
        invariant
            ids@.no_duplicates(),
            forall|id: u64| ids@.contains(id) <==> buffers@.contains_key(id),
            r@.len() == i,
            forall|k: int|
                0 <= k < i ==> (#[trigger] r@[k]).user_id == ids@[k] && is_job_for(
                    r@[k],
                    ids@[k],
                    buffers@,
                    user_names@,
                    audio_offsets@,
                ),
    {
        let user_id: u64 = ids[i];
        assert(ids@.contains(user_id));
        let samples = match buffers.get(&user_id) {
            Some(samples) => samples.clone(),
            None => Vec::new(),
        };
        let username = match user_names.get(&user_id) {
            Some(name) => name.clone(),
            None => fmt_placeholder_name(user_id),
        };
        let offset: i64 = match audio_offsets.get(&user_id) {
            Some(offset) => *offset,
            None => 0,
        };
        assert(samples@ =~= buffers@[user_id]@);
        r.push(TranscriptionJob { user_id, username, samples, offset });
    }
    proof {
        assert forall|k: int| 0 <= k < r@.len() implies buffers@.contains_key(
            (#[trigger] r@[k]).user_id,
        ) by {
            assert(ids@.contains(ids@[k]));
        }
        assert forall|id: u64| #[trigger] buffers@.contains_key(id) implies exists|i: int|
            0 <= i < r@.len() && (#[trigger] r@[i]).user_id == id by {
            assert(ids@.contains(id));
            let i = choose|i: int| 0 <= i < ids@.len() && ids@[i] == id;
            assert(r@[i].user_id == id);
        }
    }
    r
}

/// The segments stand in the order of their starts.
pub open spec fn by_start(segments: Seq<SegmentView>) -> bool {
    forall|i: int, j: int| 0 <= i < j < segments.len() ==> segments[i].start <= segments[j].start
}

/// The segments that start at that time, in the order in which they stand.
pub open spec fn starting_at(segments: Seq<SegmentView>, start: int) -> Seq<SegmentView> {
    segments.filter(|s: SegmentView| s.start == start)
}

/// The segments of all speakers, one speaker after the other. A speaker whose
/// transcription was lost has none.
pub open spec fn all_heard(results: Seq<Option<Vec<Segment>>>) -> Seq<SegmentView>
    decreases results.len(),
{
    if results.len() == 0 {
        Seq::empty()
    } else {
        match results.last() {
            Some(segments) => all_heard(results.drop_last()) + segment_views(segments@),
            None => all_heard(results.drop_last()),
        }
    }
}

/// The same segments in the order of their starts; those that start at the same
/// time keep the order that they had.
pub open spec fn is_sorting_of(sorted: Seq<SegmentView>, segments: Seq<SegmentView>) -> bool {
    &&& by_start(sorted)
    &&& sorted.to_multiset() == segments.to_multiset()
    &&& forall|start: int| #[trigger] starting_at(sorted, start) == starting_at(segments, start)
}

/// Putting a segment before all that start later, and after all others, sorts it
/// in.
proof fn lemma_sorted_in(
    head: Seq<SegmentView>,
    segment: SegmentView,
    tail: Seq<SegmentView>,
    segments: Seq<SegmentView>,
)
    requires
        is_sorting_of(head + tail, segments),
        forall|i: int| 0 <= i < head.len() ==> (#[trigger] head[i]).start <= segment.start,
        forall|i: int| 0 <= i < tail.len() ==> (#[trigger] tail[i]).start > segment.start,
    ensures
        is_sorting_of(head.push(segment) + tail, segments.push(segment)),
{
    broadcast use vstd::seq_lib::group_to_multiset_ensures;

    let before = head + tail;
    let after = head.push(segment) + tail;
    assert forall|i: int, j: int| 0 <= i < j < after.len() implies after[i].start
        <= after[j].start by {
        let n = head.len();
        if i < n && j > n {
            assert(after[i] == before[i] && after[j] == before[j - 1]);
        } else if i < n && j < n {
            assert(after[i] == before[i] && after[j] == before[j]);
        } else if i > n {
            assert(after[i] == before[i - 1] && after[j] == before[j - 1]);
        } else if i == n {
            assert(after[j] == tail[j - n - 1]);
        } else {
            assert(after[i] == head[i]);
        }
    }
    assert(after =~= before.insert(head.len() as int, segment));
    assert forall|start: int| #[trigger]
        starting_at(after, start) == starting_at(segments.push(segment), start) by {
        let pred = |s: SegmentView| s.start == start;
        Seq::filter_distributes_over_add(head.push(segment), tail, pred);
        Seq::filter_distributes_over_add(head, tail, pred);
        lemma_filter_push(head, segment, pred);
        lemma_filter_push(segments, segment, pred);
        assert(starting_at(before, start) == starting_at(segments, start));
        if segment.start == start {
            lemma_filter_none(tail, pred);
        }
        assert(starting_at(after, start) =~= starting_at(segments.push(segment), start));
    }
}

proof fn lemma_filter_push(
    segments: Seq<SegmentView>,
    segment: SegmentView,
    pred: spec_fn(SegmentView) -> bool,
)
    ensures
        segments.push(segment).filter(pred) == if pred(segment) {
            segments.filter(pred).push(segment)
        } else {
            segments.filter(pred)
        },
{
    reveal(Seq::filter);
    assert(segments.push(segment).drop_last() =~= segments);
}

proof fn lemma_filter_none(segments: Seq<SegmentView>, pred: spec_fn(SegmentView) -> bool)
    requires
        forall|i: int| 0 <= i < segments.len() ==> !pred(#[trigger] segments[i]),
    ensures
        segments.filter(pred) == Seq::<SegmentView>::empty(),
    decreases segments.len(),
{
    reveal(Seq::filter);
    if segments.len() > 0 {
        lemma_filter_none(segments.drop_last(), pred);
    }
}

/// Sorts a segment into a list that stands in the order of starts.
fn sort_in(sorted: &mut Vec<Segment>, segment: Segment, Ghost(segments): Ghost<Seq<SegmentView>>)
    requires
        is_sorting_of(segment_views(old(sorted)@), segments),
    ensures
        is_sorting_of(segment_views(final(sorted)@), segments.push(segment@)),
{
    let ghost all = segment_views(sorted@);
    let mut i: usize = sorted.len();
    while i > 0 && sorted[i - 1].start > segment.start
        invariant
            *sorted == *old(sorted),
            all == segment_views(sorted@),
            i <= sorted@.len(),
            forall|k: int| i <= k < all.len() ==> (#[trigger] all[k]).start > segment.start,
        decreases i,
    {
        assert(all[i - 1].start == sorted@[i - 1].start);
        i -= 1;
    }
    proof {
        let head = all.take(i as int);
        let tail = all.skip(i as int);
        assert(all =~= head + tail);
        assert forall|k: int| 0 <= k < head.len() implies (#[trigger] head[k]).start
            <= segment.start by {
            assert(all[i - 1].start == sorted@[i - 1].start);
            assert(all[k].start <= all[i - 1].start);
        }
        assert forall|k: int| 0 <= k < tail.len() implies (#[trigger] tail[k]).start
            > segment.start by {
            assert(tail[k] == all[i + k]);
        }
        lemma_sorted_in(head, segment@, tail, segments);
    }
    let ghost last = segment@;
    sorted.insert(i, segment);
    assert(segment_views(sorted@) =~= all.take(i as int).push(last) + all.skip(i as int));
}

/// Puts the segments of all speakers in the order of their starts. `None` stands
/// for a speaker whose transcription was lost.
pub fn merge_segments(results: &Vec<Option<Vec<Segment>>>) -> (r: Vec<Segment>)
    ensures
        is_sorting_of(segment_views(r@), all_heard(results@)),
{
    let mut r: Vec<Segment> = Vec::new();
    assert(segment_views(r@) =~= Seq::empty());
    for i in 0..results.len()
        invariant
            is_sorting_of(segment_views(r@), all_heard(results@.take(i as int))),
    {
        assert(results@.take(i + 1).drop_last() =~= results@.take(i as int));
        match &results[i] {
            Some(segments) => {
                let ghost before = all_heard(results@.take(i as int));
                let ghost new = segment_views(segments@);
                assert(before + new.take(0) =~= before);
                for k in 0..segments.len()
                    invariant
                        new == segment_views(segments@),
                        is_sorting_of(segment_views(r@), before + new.take(k as int)),
                {
                    let segment = segments[k].clone();
                    sort_in(&mut r, segment, Ghost(before + new.take(k as int)));
                    assert((before + new.take(k as int)).push(segment@) =~= before + new.take(
                        k + 1,
                    ));
                }
                assert(new.take(new.len() as int) =~= new);
            },
            None => {},
        }
    }
    assert(results@.take(results@.len() as int) =~= results@);
    r
}

} // verus!
