//! What holds of every message that a transcript makes.
use crate::formatter::{
    batch_messages, bytes_before, chunks_of, clock, duration_seconds, law_parts_rejoin,
    law_single_chunk, law_speakers, message_line, message_lines, minutes_seconds, name_before,
    numbered, parts_of, speakers_of, speakers_text, summary_messages, transcript_line,
    transcript_lines, transcript_messages, whole_seconds,
};
use crate::session::SegmentView;
use crate::text::{decimal, join, texts, two_digits};
use vstd::prelude::*;
use vstd::utf8::encode_utf8;

verus! {

// ---------------------------------------------------------------------------
// Times and durations
// ---------------------------------------------------------------------------

/// A time in milliseconds counts for the seconds that are over; before the start it
/// counts for none, and past 64 bits for the most that they hold.
pub proof fn law_whole_seconds(millis: int)
    ensures
        millis < 0 ==> whole_seconds(millis) == 0,
        0 <= millis < 1000 * (u64::MAX + 1) ==> 1000 * whole_seconds(millis) <= millis < 1000 * (
        whole_seconds(millis) + 1),
        millis >= 1000 * (u64::MAX + 1) ==> whole_seconds(millis) == u64::MAX,
{
}

/// Hours, minutes and seconds are shown with two digits each; hours only where there are
/// any.
pub proof fn law_clock(hours: nat, minutes: nat, seconds: nat)
    requires
        minutes < 60,
        seconds < 60,
    ensures
        clock(3600 * hours + 60 * minutes + seconds) == (if hours > 0 {
            two_digits(hours) + seq![':']
        } else {
            Seq::empty()
        }) + two_digits(minutes) + seq![':'] + two_digits(seconds),
{
    let total = 3600 * hours + 60 * minutes + seconds;
    assert(total / 3600 == hours);
    assert((total % 3600) / 60 == minutes);
    assert(total % 60 == seconds);
    reveal_strlit(":");
    assert(":"@ =~= seq![':']);
    assert(clock(total) =~= (if hours > 0 {
        two_digits(hours) + seq![':']
    } else {
        Seq::empty()
    }) + two_digits(minutes) + seq![':'] + two_digits(seconds));
}

/// A duration is shown in minutes and the seconds left.
pub proof fn law_minutes_seconds(minutes: nat, seconds: nat)
    requires
        seconds < 60,
    ensures
        minutes_seconds(60 * minutes + seconds) == decimal(minutes) + seq!['m', ' '] + decimal(
            seconds,
        ) + seq!['s'],
{
    reveal_strlit("m ");
    reveal_strlit("s");
    assert("m "@ =~= seq!['m', ' ']);
    assert("s"@ =~= seq!['s']);
}

/// A duration is that of the seconds that are over between two instants; none where the
/// second comes first.
pub proof fn law_duration(start: int, end: int)
    ensures
        end < start ==> duration_seconds(start, end) == 0,
        end >= start ==> 1_000_000_000 * duration_seconds(start, end) <= end - start
            < 1_000_000_000 * (duration_seconds(start, end) + 1),
{
}

// ---------------------------------------------------------------------------
// Lines
// ---------------------------------------------------------------------------

/// There is a line for each segment, in order, and no other: its time, its user and its
/// text.
pub proof fn law_lines_are_complete(segments: Seq<SegmentView>, i: int)
    ensures
        message_lines(segments).len() == segments.len(),
        transcript_lines(segments).len() == segments.len(),
        0 <= i < segments.len() ==> message_lines(segments)[i] == seq!['`'] + clock(
            whole_seconds(segments[i].start),
        ) + seq!['`', ' ', '*'] + segments[i].user + seq!['*', ':', ' '] + segments[i].text,
        0 <= i < segments.len() ==> transcript_lines(segments)[i] == seq!['['] + clock(
            whole_seconds(segments[i].start),
        ) + seq![']', ' '] + segments[i].user + seq![':', ' '] + segments[i].text,
{
    reveal_strlit("`");
    reveal_strlit("` *");
    reveal_strlit("*: ");
    reveal_strlit("[");
    reveal_strlit("] ");
    reveal_strlit(": ");
    assert("`"@ =~= seq!['`']);
    assert("` *"@ =~= seq!['`', ' ', '*']);
    assert("*: "@ =~= seq!['*', ':', ' ']);
    assert("["@ =~= seq!['[']);
    assert("] "@ =~= seq![']', ' ']);
    assert(": "@ =~= seq![':', ' ']);
}

/// The lines of two lists of segments, one after the other, are those of each.
pub proof fn law_lines_concat(a: Seq<SegmentView>, b: Seq<SegmentView>)
    ensures
        message_lines(a + b) == message_lines(a) + message_lines(b),
        transcript_lines(a + b) == transcript_lines(a) + transcript_lines(b),
{
    assert(message_lines(a + b) =~= message_lines(a) + message_lines(b));
    assert(transcript_lines(a + b) =~= transcript_lines(a) + transcript_lines(b));
}

// ---------------------------------------------------------------------------
// Names
// ---------------------------------------------------------------------------

/// Bytes are ordered by the first in which they differ; what goes on comes after what
/// ends.
pub proof fn law_bytes_before(same: Seq<u8>, x: u8, a: Seq<u8>, y: u8, b: Seq<u8>)
    ensures
        x != y ==> bytes_before(same + seq![x] + a, same + seq![y] + b) == (x < y),
        bytes_before(same, same + seq![x] + a),
        !bytes_before(same + seq![x] + a, same),
        !bytes_before(same, same),
    decreases same.len(),
{
    let left = same + seq![x] + a;
    let right = same + seq![y] + b;
    if same.len() > 0 {
        let rest = same.drop_first();
        law_bytes_before(rest, x, a, y, b);
        assert(left.drop_first() =~= rest + seq![x] + a);
        assert(right.drop_first() =~= rest + seq![y] + b);
    }
}

/// Of any two speakers the one listed first has the smaller name, by its bytes; and a name
/// is listed exactly where someone of that name speaks.
pub proof fn law_speakers_in_order(segments: Seq<SegmentView>, name: Seq<char>, i: int, j: int)
    ensures
        0 <= i < j < speakers_of(segments).len() ==> bytes_before(
            encode_utf8(speakers_of(segments)[i]),
            encode_utf8(speakers_of(segments)[j]),
        ),
        speakers_of(segments).contains(name) <==> exists|k: int|
            0 <= k < segments.len() && (#[trigger] segments[k]).user == name,
{
    let names = speakers_of(segments);
    law_speakers(segments);
    assert(0 <= i < j < names.len() ==> name_before(names[i], names[j]));
}

/// Names are ordered by their bytes; the speakers are listed with a comma between them,
/// or as nobody.
pub proof fn law_names(a: Seq<char>, b: Seq<char>, names: Seq<Seq<char>>)
    ensures
        name_before(a, b) == bytes_before(encode_utf8(a), encode_utf8(b)),
        names.len() == 0 ==> speakers_text(names) == "aucun détecté"@,
        names.len() > 0 ==> speakers_text(names) == join(names, seq![',', ' ']),
{
    reveal_strlit(", ");
    assert(", "@ =~= seq![',', ' ']);
}

// ---------------------------------------------------------------------------
// Messages
// ---------------------------------------------------------------------------

/// A part with its position.
pub proof fn law_numbered(part: Seq<char>, position: nat, total: nat)
    ensures
        numbered(part, position, total) == part + "\n_(partie "@ + decimal(position) + seq!['/']
            + decimal(total) + seq![')', '_'],
{
    reveal_strlit("/");
    reveal_strlit(")_");
    assert("/"@ =~= seq!['/']);
    assert(")_"@ =~= seq![')', '_']);
}

/// The messages hold the whole text: one message is the text itself; of several, each is
/// a part with its position under it, and the parts, joined with line feeds, are the
/// text. A text of at most 3000 bytes is one message.
pub proof fn law_messages_hold_the_text(text: Seq<char>)
    ensures
        chunks_of(text).len() >= 1,
        chunks_of(text).len() == 1 ==> chunks_of(text)[0] == text,
        encode_utf8(text).len() <= 3000 ==> chunks_of(text).len() == 1,
        exists|parts: Seq<Seq<char>>|
            {
                &&& parts.len() == chunks_of(text).len()
                &&& #[trigger] join(parts, seq!['\n']) == text
                &&& chunks_of(text).len() > 1 ==> forall|i: int|
                    0 <= i < parts.len() ==> #[trigger] chunks_of(text)[i] == parts[i]
                        + "\n_(partie "@ + decimal((i + 1) as nat) + seq!['/'] + decimal(
                        parts.len(),
                    ) + seq![')', '_']
            },
{
    law_single_chunk(text);
    law_parts_rejoin(text);
    if chunks_of(text).len() > 1 {
        let parts = parts_of(text);
        assert forall|i: int| 0 <= i < parts.len() implies #[trigger] chunks_of(text)[i] == parts[i]
            + "\n_(partie "@ + decimal((i + 1) as nat) + seq!['/'] + decimal(parts.len()) + seq![
            ')',
            '_',
        ] by {
            law_numbered(parts[i], (i + 1) as nat, parts.len());
        }
        assert(join(parts, seq!['\n']) == text);
    } else {
        assert(join(seq![text], seq!['\n']) == text);
    }
}

/// The messages of a batch: its title with number and times, an empty line, and a line
/// for each segment; or else that nobody spoke.
pub proof fn law_batch_messages(
    segments: Seq<SegmentView>,
    number: nat,
    start: Seq<char>,
    end: Seq<char>,
    lines: Seq<Seq<char>>,
)
    requires
        lines.len() == 1 + segments.len(),
        lines[0] == "*[Batch "@ + decimal(number) + " — "@ + start + "→"@ + end + "]*\n"@,
        forall|i: int|
            0 <= i < segments.len() ==> lines[i + 1] == message_line(#[trigger] segments[i]),
    ensures
        segments.len() > 0 ==> batch_messages(segments, number, start, end) == chunks_of(
            join(lines, seq!['\n']),
        ),
        segments.len() == 0 ==> batch_messages(segments, number, start, end) == seq![
            lines[0] + "_(aucune prise de parole détectée)_"@,
        ],
{
    assert(seq![lines[0]] + message_lines(segments) =~= lines) by {
        assert forall|k: int| 0 < k < lines.len() implies (seq![lines[0]] + message_lines(
            segments,
        ))[k] == lines[k] by {
            assert(lines[(k - 1) + 1] == message_line(segments[k - 1]));
        }
    }
}

/// The messages of the raw transcript: channel, date, start, end, duration, speakers, a
/// rule, and a line for each segment, or that nobody spoke.
pub proof fn law_transcript_messages(
    segments: Seq<SegmentView>,
    channel: Seq<char>,
    date: Seq<char>,
    start: Seq<char>,
    end: Seq<char>,
    duration: nat,
    lines: Seq<Seq<char>>,
)
    requires
        lines.len() == 9 + if segments.len() == 0 {
            1
        } else {
            segments.len()
        },
        lines[0] == "WAR ROOM TRANSCRIPT — #"@ + channel,
        lines[1] == "Date     : "@ + date,
        lines[2] == "Start    : "@ + start,
        lines[3] == "End      : "@ + end,
        lines[4] == "Duration : "@ + minutes_seconds(duration),
        lines[5] == "Speakers : "@ + speakers_text(speakers_of(segments)),
        lines[6] == Seq::<char>::empty(),
        lines[7] == "---"@,
        lines[8] == Seq::<char>::empty(),
        segments.len() == 0 ==> lines[9] == "(no speech detected)"@,
        forall|i: int|
            0 <= i < segments.len() ==> lines[i + 9] == transcript_line(#[trigger] segments[i]),
    ensures
        transcript_messages(segments, channel, date, start, end, duration) == chunks_of(
            join(lines, seq!['\n']),
        ),
{
    let all = crate::formatter::transcript_header(
        speakers_of(segments),
        channel,
        date,
        start,
        end,
        duration,
    ) + if segments.len() == 0 {
        seq!["(no speech detected)"@]
    } else {
        transcript_lines(segments)
    };
    assert forall|k: int| 9 <= k < lines.len() && segments.len() > 0 implies all[k] == lines[k] by {
        assert(lines[(k - 9) + 9] == transcript_line(segments[k - 9]));
    }
    assert(all =~= lines);
}

/// The messages of the summary: channel, date, duration, times, participants, a rule, and
/// the complete timeline, a line for each segment, or that nobody spoke.
pub proof fn law_summary_messages(
    segments: Seq<SegmentView>,
    channel: Seq<char>,
    date: Seq<char>,
    start: Seq<char>,
    end: Seq<char>,
    duration: nat,
    lines: Seq<Seq<char>>,
)
    requires
        lines.len() == 8 + if segments.len() == 0 {
            1
        } else {
            segments.len()
        },
        lines[0] == "*Résumé War Room — #"@ + channel + "*"@,
        lines[1] == "*Date :* "@ + date,
        lines[2] == "*Durée :* "@ + minutes_seconds(duration) + "  |  *Début :* "@ + start
            + "  |  *Fin :* "@ + end,
        lines[3] == "*Participants :* "@ + speakers_text(speakers_of(segments)),
        lines[4] == Seq::<char>::empty(),
        lines[5] == "─────────────────────────"@,
        lines[6] == "*Timeline complète*"@,
        lines[7] == Seq::<char>::empty(),
        segments.len() == 0 ==> lines[8] == "_(aucune prise de parole détectée)_"@,
        forall|i: int|
            0 <= i < segments.len() ==> lines[i + 8] == message_line(#[trigger] segments[i]),
    ensures
        summary_messages(segments, channel, date, start, end, duration) == chunks_of(
            join(lines, seq!['\n']),
        ),
{
    let all = crate::formatter::summary_header(
        speakers_of(segments),
        channel,
        date,
        start,
        end,
        duration,
    ) + if segments.len() == 0 {
        seq!["_(aucune prise de parole détectée)_"@]
    } else {
        message_lines(segments)
    };
    assert forall|k: int| 8 <= k < lines.len() && segments.len() > 0 implies all[k] == lines[k] by {
        assert(lines[(k - 8) + 8] == message_line(segments[k - 8]));
    }
    assert(all =~= lines);
}

/// The texts of strings are theirs, one for one.
pub proof fn law_texts(strings: Seq<String>, i: int)
    ensures
        texts(strings).len() == strings.len(),
        0 <= i < strings.len() ==> texts(strings)[i] == strings[i]@,
{
}

} // verus!
