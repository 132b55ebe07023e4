//! Lays transcripts out as Slack messages.
use crate::session::{segment_views, Segment, SegmentView};
use crate::text::{
    byte_len, decimal, join, join_strings, lemma_byte_len_concat, lemma_join_lines, lemma_join_push,
    lemma_lines_nonempty, lines_of, push_decimal, push_two_digits, split_lines, texts,
    two_digits,
};
use crate::text_laws::{law_lines_of_joined, law_lines_unbroken};
use crate::time::{montreal_time, Timestamp};
use vstd::prelude::*;
use vstd::utf8::{encode_utf8, encode_utf8_decode_utf8};

verus! {

broadcast use vstd::string::group_string_axioms;

/// A text that is longer than this many bytes is split. A cautious limit: Slack
/// itself takes longer messages.
pub const SLACK_MSG_LIMIT: usize = 3000;

// ---------------------------------------------------------------------------
// Splitting a long text into messages
// ---------------------------------------------------------------------------

/// What the lines count for in a message: their bytes, and one for the line feed
/// of each.
pub open spec fn lines_cost(lines: Seq<Seq<char>>) -> nat
    decreases lines.len(),
{
    if lines.len() == 0 {
        0
    } else {
        lines_cost(lines.drop_last()) + byte_len(lines.last()) + 1
    }
}

/// The lines in groups, in their order: a line joins the group before it where
/// the group stays within the limit, and opens a new one where it would not.
pub open spec fn packed(lines: Seq<Seq<char>>) -> Seq<Seq<Seq<char>>>
    decreases lines.len(),
{
    if lines.len() == 0 {
        Seq::empty()
    } else {
        let groups = packed(lines.drop_last());
        let line = lines.last();
        if groups.len() > 0 && lines_cost(groups.last()) + byte_len(line) + 1 <= SLACK_MSG_LIMIT {
            groups.update(groups.len() - 1, groups.last().push(line))
        } else {
            groups.push(seq![line])
        }
    }
}

/// Each group of lines as one text.
pub open spec fn joined(groups: Seq<Seq<Seq<char>>>) -> Seq<Seq<char>> {
    groups.map_values(|lines: Seq<Seq<char>>| join(lines, seq!['\n']))
}

/// The parts into which a long text is cut, between lines.
pub open spec fn parts_of(text: Seq<char>) -> Seq<Seq<char>> {
    joined(packed(lines_of(text)))
}

/// A part with its position written under it.
pub open spec fn numbered(part: Seq<char>, position: nat, total: nat) -> Seq<char> {
    part + "\n_(partie "@ + decimal(position) + "/"@ + decimal(total) + ")_"@
}

/// The messages for a text: the text itself within the limit, else its parts,
/// numbered where there are several.
pub open spec fn chunks_of(text: Seq<char>) -> Seq<Seq<char>> {
    if byte_len(text) <= SLACK_MSG_LIMIT {
        seq![text]
    } else {
        let parts = parts_of(text);
        if parts.len() == 1 {
            parts
        } else {
            Seq::new(parts.len(), |i: int| numbered(parts[i], (i + 1) as nat, parts.len()))
        }
    }
}

/// A list of lines has a group exactly where it has a line.
proof fn lemma_packed_nonempty(lines: Seq<Seq<char>>)
    ensures
        packed(lines).len() == 0 <==> lines.len() == 0,
    decreases lines.len(),
{
    if lines.len() > 0 {
        lemma_packed_nonempty(lines.drop_last());
    }
}

/// Packing lines into groups changes nothing of the text that they make.
proof fn lemma_packed_rejoin(lines: Seq<Seq<char>>)
    ensures
        join(joined(packed(lines)), seq!['\n']) == join(lines, seq!['\n']),
    decreases lines.len(),
{
    let feed = seq!['\n'];
    if lines.len() > 0 {
        let init = lines.drop_last();
        let line = lines.last();
        let groups = packed(init);
        lemma_packed_rejoin(init);
        lemma_packed_nonempty(init);
        lemma_join_push(init, line, feed);
        assert(lines =~= init.push(line));
        if groups.len() > 0 && lines_cost(groups.last()) + byte_len(line) + 1 <= SLACK_MSG_LIMIT {
            let head = joined(groups.drop_last());
            let last = join(groups.last(), feed);
            lemma_packed_groups(init, groups.len() - 1);
            lemma_join_push(groups.last(), line, feed);
            lemma_join_push(head, last, feed);
            lemma_join_push(head, last + feed + line, feed);
            assert(joined(groups) =~= head.push(last));
            assert(joined(packed(lines)) =~= head.push(last + feed + line));
            assert(join(joined(packed(lines)), feed) =~= join(lines, feed));
        } else {
            lemma_join_push(Seq::empty(), line, feed);
            lemma_join_push(joined(groups), line, feed);
            assert(seq![line] =~= Seq::<Seq<char>>::empty().push(line));
            assert(joined(packed(lines)) =~= joined(groups).push(line));
        }
    } else {
        assert(joined(packed(lines)) =~= lines);
    }
}

/// A group is never empty; one of several lines stays within the limit; and the
/// line that opens the next group did not fit.
proof fn lemma_packed_groups(lines: Seq<Seq<char>>, i: int)
    requires
        0 <= i < packed(lines).len(),
    ensures
        packed(lines)[i].len() > 0,
        packed(lines)[i].len() == 1 || lines_cost(packed(lines)[i]) <= SLACK_MSG_LIMIT,
        i + 1 < packed(lines).len() ==> lines_cost(packed(lines)[i]) + byte_len(
            packed(lines)[i + 1][0],
        ) + 1 > SLACK_MSG_LIMIT,
    decreases lines.len(),
{
    let init = lines.drop_last();
    let line = lines.last();
    let groups = packed(init);
    if i < groups.len() {
        lemma_packed_groups(init, i);
    }
    if groups.len() > 0 {
        lemma_packed_groups(init, groups.len() - 1);
        assert(groups.last().push(line).drop_last() =~= groups.last());
    }
}

/// Each line of a group is a line of the list.
proof fn lemma_packed_members(lines: Seq<Seq<char>>, i: int, k: int)
    requires
        0 <= i < packed(lines).len(),
        0 <= k < packed(lines)[i].len(),
    ensures
        lines.contains(packed(lines)[i][k]),
    decreases lines.len(),
{
    let init = lines.drop_last();
    let line = lines.last();
    let groups = packed(init);
    assert(lines[lines.len() - 1] == line);
    if i < groups.len() && k < groups[i].len() {
        lemma_packed_members(init, i, k);
        let j = choose|j: int| 0 <= j < init.len() && init[j] == groups[i][k];
        assert(lines[j] == groups[i][k]);
    }
}

/// Joined lines are one byte shorter than what they count for.
proof fn lemma_join_cost(lines: Seq<Seq<char>>)
    requires
        lines.len() > 0,
    ensures
        byte_len(join(lines, seq!['\n'])) + 1 == lines_cost(lines),
    decreases lines.len(),
{
    let feed = seq!['\n'];
    let init = lines.drop_last();
    if lines.len() > 1 {
        lemma_join_cost(init);
        lemma_byte_len_concat(join(init, feed), feed);
        lemma_byte_len_concat(join(init, feed) + feed, lines.last());
        assert(byte_len(feed) == 1) by {
            reveal_with_fuel(encode_utf8, 2);
            assert(feed.drop_first() =~= Seq::<char>::empty());
        }
    } else {
        reveal_with_fuel(lines_cost, 2);
    }
}

/// Splitting loses nothing: the parts of a text, joined with line feeds, are the
/// text.
pub proof fn law_parts_rejoin(text: Seq<char>)
    ensures
        join(parts_of(text), seq!['\n']) == text,
{
    lemma_packed_rejoin(lines_of(text));
    lemma_join_lines(text);
}

/// A part keeps within the limit, unless it is a single line that does not: lines
/// are never cut.
pub proof fn law_part_within_limit(text: Seq<char>, i: int)
    requires
        0 <= i < parts_of(text).len(),
    ensures
        byte_len(parts_of(text)[i]) < SLACK_MSG_LIMIT || lines_of(text).contains(parts_of(text)[i]),
        !lines_of(text).contains(parts_of(text)[i]) ==> parts_of(text)[i].contains('\n'),
{
    let lines = lines_of(text);
    let group = packed(lines)[i];
    lemma_packed_groups(lines, i);
    lemma_join_cost(group);
    lemma_packed_members(lines, i, 0);
    if group.len() > 1 {
        let feed = seq!['\n'];
        let init = join(group.drop_last(), feed);
        assert(parts_of(text)[i] == init + feed + group.last());
        assert(parts_of(text)[i][init.len() as int] == '\n');
    }
}

/// Of several messages, each is as long as its part and its position together. So
/// none passes the limit by more than its position takes, unless its part is a single
/// line that does.
pub proof fn law_chunk_length(text: Seq<char>, i: int)
    requires
        chunks_of(text).len() > 1,
        0 <= i < chunks_of(text).len(),
    ensures
        ({
            let part = parts_of(text)[i];
            let position = numbered(Seq::empty(), (i + 1) as nat, parts_of(text).len());
            &&& chunks_of(text).len() == parts_of(text).len()
            &&& chunks_of(text)[i] == part + position
            &&& byte_len(chunks_of(text)[i]) == byte_len(part) + byte_len(position)
            &&& byte_len(chunks_of(text)[i]) < SLACK_MSG_LIMIT + byte_len(position)
                || lines_of(text).contains(part)
        }),
{
    let part = parts_of(text)[i];
    let total = parts_of(text).len();
    let position = numbered(Seq::empty(), (i + 1) as nat, total);
    assert(numbered(part, (i + 1) as nat, total) =~= part + position);
    lemma_byte_len_concat(part, position);
    law_part_within_limit(text, i);
}

/// A part is as full as can be: with the first line of the next part it would
/// pass the limit.
pub proof fn law_part_is_full(text: Seq<char>, i: int)
    requires
        0 <= i < parts_of(text).len() - 1,
    ensures
        byte_len(parts_of(text)[i]) + 1 + byte_len(packed(lines_of(text))[i + 1][0]) + 1
            > SLACK_MSG_LIMIT,
{
    let lines = lines_of(text);
    lemma_packed_groups(lines, i);
    lemma_join_cost(packed(lines)[i]);
}

/// Cut into parts, a text keeps every line: none of the parts reaches 3000 bytes unless it
/// is a single line, and none has room for the first line of the next one.
pub proof fn law_parts_are_greedy(text: Seq<char>, i: int)
    requires
        0 <= i < parts_of(text).len(),
    ensures
        encode_utf8(parts_of(text)[i]).len() < 3000 || !parts_of(text)[i].contains('\n'),
        i + 1 < parts_of(text).len() ==> encode_utf8(parts_of(text)[i]).len() + 1 + encode_utf8(
            lines_of(parts_of(text)[i + 1])[0],
        ).len() + 1 > 3000,
{
    let lines = lines_of(text);
    law_part_within_limit(text, i);
    if lines.contains(parts_of(text)[i]) {
        let k = choose|k: int| 0 <= k < lines.len() && lines[k] == parts_of(text)[i];
        law_lines_unbroken(text, k);
    }
    if i + 1 < parts_of(text).len() {
        let next = packed(lines)[i + 1];
        law_part_is_full(text, i);
        lemma_packed_groups(lines, i + 1);
        assert forall|k: int| 0 <= k < next.len() implies !(#[trigger] next[k]).contains('\n') by {
            lemma_packed_members(lines, i + 1, k);
            let m = choose|m: int| 0 <= m < lines.len() && lines[m] == next[k];
            law_lines_unbroken(text, m);
        }
        law_lines_of_joined(next);
    }
}

/// A text within the limit is one message, unchanged; and a text that is one
/// message is unchanged in it.
pub proof fn law_single_chunk(text: Seq<char>)
    ensures
        byte_len(text) <= SLACK_MSG_LIMIT ==> chunks_of(text).len() == 1,
        chunks_of(text).len() == 1 ==> chunks_of(text)[0] == text,
        chunks_of(text).len() > 0,
{
    law_parts_rejoin(text);
    lemma_lines_nonempty(text);
    lemma_packed_nonempty(lines_of(text));
}

/// Cuts a text into parts, between lines.
fn split_parts(text: &str) -> (r: Vec<String>)
    ensures
        texts(r@) == parts_of(text@),
{
    let lines = split_lines(text);
    let ghost all = texts(lines@);
    let mut parts: Vec<String> = Vec::new();
    let mut current = String::new();
    let mut current_len: u128 = 0;
    let mut open = false;
    assert(all.take(0) =~= Seq::<Seq<char>>::empty());
    for i in 0..lines.len()
        invariant
            all == texts(lines@),
            open == (i > 0),
            packed(all.take(i as int)).len() == 0 <==> i == 0,
            !open ==> parts@.len() == 0 && current@.len() == 0 && current_len == 0,
            open ==> {
                let groups = packed(all.take(i as int));
                &&& texts(parts@) == joined(groups.drop_last())
                &&& current@ == join(groups.last(), seq!['\n'])
                &&& current_len == lines_cost(groups.last())
                &&& groups.last().len() > 0
            },
            current_len <= usize::MAX + 1,
    {
        let ghost groups = packed(all.take(i as int));
        let ghost line = all[i as int];
        let ghost next = packed(all.take(i + 1));
        assert(all.take(i + 1).drop_last() =~= all.take(i as int));
        let line_len: u128 = lines[i].as_str().as_bytes().len() as u128 + 1;
        let ghost fits = open && current_len + line_len <= SLACK_MSG_LIMIT;
        if open && current_len + line_len > SLACK_MSG_LIMIT as u128 {
            let ghost before = texts(parts@);
            let ghost last = current@;
            parts.push(current);
            assert(texts(parts@) =~= before.push(last));
            assert(joined(groups) =~= before.push(last));
            current = String::new();
            current_len = 0;
            open = false;
        }
        if open {
            current.push('\n');
        }
        current.append(lines[i].as_str());
        current_len += line_len;
        open = true;
        proof {
            if fits {
                lemma_join_push(groups.last(), line, seq!['\n']);
                assert(groups.last().push(line).drop_last() =~= groups.last());
                assert(next.drop_last() =~= groups.drop_last());
                assert(current@ =~= join(groups.last(), seq!['\n']) + seq!['\n'] + line);
                assert(lines_cost(next.last()) == lines_cost(groups.last()) + byte_len(line) + 1);
            } else {
                assert(next.drop_last() =~= groups);
                assert(seq![line].drop_last() =~= Seq::<Seq<char>>::empty());
                assert(current@ =~= line);
                reveal_with_fuel(lines_cost, 2);
                assert(i == 0 ==> texts(parts@) =~= joined(next.drop_last()));
            }
        }
    }
    proof {
        lemma_lines_nonempty(text@);
        assert(all.take(all.len() as int) =~= all);
    }
    let ghost before = texts(parts@);
    let ghost last = current@;
    parts.push(current);
    assert(texts(parts@) =~= before.push(last));
    assert(joined(packed(all)) =~= before.push(last));
    parts
}

/// Splits a text of more than `SLACK_MSG_LIMIT` bytes into messages, between lines
/// only, never within one. The limit bounds the parts that are cut, but for a part of
/// one longer line; the position that is written under each of several parts comes on
/// top of it.
pub fn split_into_chunks(text: &str) -> (r: Vec<String>)
    ensures
        texts(r@) == chunks_of(text@),
{
    if text.as_bytes().len() <= SLACK_MSG_LIMIT {
        let r: Vec<String> = vec![text.to_owned()];
        assert(texts(r@) =~= seq![text@]);
        return r;
    }
    let parts = split_parts(text);
    let total: usize = parts.len();
    if total == 1 {
        return parts;
    }
    let mut r: Vec<String> = Vec::new();
    for i in 0..total
        invariant
            total == parts@.len(),
            texts(parts@) == parts_of(text@),
            texts(r@) == Seq::new(
                i as nat,
                |k: int| numbered(parts_of(text@)[k], (k + 1) as nat, total as nat),
            ),
    {
        let mut chunk = parts[i].clone();
        chunk.append("\n_(partie ");
        push_decimal(&mut chunk, i as u64 + 1);
        chunk.append("/");
        push_decimal(&mut chunk, total as u64);
        chunk.append(")_");
        let ghost before = texts(r@);
        let ghost last = chunk@;
        r.push(chunk);
        assert(texts(r@) =~= before.push(last));
        assert(texts(r@) =~= Seq::new(
            (i + 1) as nat,
            |k: int| numbered(parts_of(text@)[k], (k + 1) as nat, total as nat),
        ));
    }
    assert(texts(r@) =~= chunks_of(text@));
    r
}

// ---------------------------------------------------------------------------
// Times, durations, names
// ---------------------------------------------------------------------------

/// Whole seconds of a time in milliseconds: none for a time before the start, and
/// at most what 64 bits hold.
pub open spec fn whole_seconds(millis: int) -> nat {
    if millis < 0 {
        0
    } else if millis / 1000 > u64::MAX {
        u64::MAX as nat
    } else {
        (millis / 1000) as nat
    }
}

/// A number of seconds as "MM:SS", or as "HH:MM:SS" from an hour on.
pub open spec fn clock(seconds: nat) -> Seq<char> {
    let minutes_seconds = two_digits((seconds % 3600) / 60) + ":"@ + two_digits(seconds % 60);
    if seconds / 3600 > 0 {
        two_digits(seconds / 3600) + ":"@ + minutes_seconds
    } else {
        minutes_seconds
    }
}

/// Prints a time in milliseconds as "MM:SS" or "HH:MM:SS".
pub fn fmt_ts(millis: i128) -> (r: String)
    ensures
        r@ == clock(whole_seconds(millis as int)),
{
    let total: u64 = if millis < 0 {
        0
    } else if millis / 1000 > u64::MAX as i128 {
        u64::MAX
    } else {
        (millis / 1000) as u64
    };
    let hours: u64 = total / 3600;
    let mut r = String::new();
    if hours > 0 {
        push_two_digits(&mut r, hours);
        r.append(":");
    }
    push_two_digits(&mut r, (total % 3600) / 60);
    r.append(":");
    push_two_digits(&mut r, total % 60);
    assert(r@ =~= clock(total as nat));
    r
}

/// A number of seconds as minutes and seconds.
pub open spec fn minutes_seconds(seconds: nat) -> Seq<char> {
    decimal(seconds / 60) + "m "@ + decimal(seconds % 60) + "s"@
}

/// Prints a number of seconds as minutes and seconds.
pub fn fmt_duration(seconds: u64) -> (r: String)
    ensures
        r@ == minutes_seconds(seconds as nat),
{
    let mut r = String::new();
    push_decimal(&mut r, seconds / 60);
    r.append("m ");
    push_decimal(&mut r, seconds % 60);
    r.append("s");
    assert(r@ =~= minutes_seconds(seconds as nat));
    r
}

/// How long it is from one instant to another, in whole seconds; nothing where
/// the second comes first.
pub open spec fn duration_seconds(start: int, end: int) -> nat {
    if end < start {
        0
    } else {
        ((end - start) / 1_000_000_000) as nat
    }
}

/// The whole seconds from `start` to `end`, never negative.
pub fn duration_between(start: Timestamp, end: Timestamp) -> (r: u64)
    ensures
        r == duration_seconds(start@, end@),
{
    let seconds: i64 = end.seconds_since(start);
    if seconds < 0 {
        0
    } else {
        seconds as u64
    }
}

/// Bytes in the order of a dictionary.
pub open spec fn bytes_before(a: Seq<u8>, b: Seq<u8>) -> bool
    decreases a.len(),
{
    if b.len() == 0 {
        false
    } else if a.len() == 0 {
        true
    } else if a[0] != b[0] {
        a[0] < b[0]
    } else {
        bytes_before(a.drop_first(), b.drop_first())
    }
}

/// Names in the order of their UTF-8 bytes.
pub open spec fn name_before(a: Seq<char>, b: Seq<char>) -> bool {
    bytes_before(encode_utf8(a), encode_utf8(b))
}

/// The name put in its place in an ordered list, unless it is there already.
pub open spec fn with_name(names: Seq<Seq<char>>, name: Seq<char>) -> Seq<Seq<char>>
    decreases names.len(),
{
    if names.len() == 0 {
        seq![name]
    } else if names.last() == name {
        names
    } else if name_before(names.last(), name) {
        names.push(name)
    } else {
        with_name(names.drop_last(), name).push(names.last())
    }
}

/// Who speaks in the segments: each name once, in order.
pub open spec fn speakers_of(segments: Seq<SegmentView>) -> Seq<Seq<char>>
    decreases segments.len(),
{
    if segments.len() == 0 {
        Seq::empty()
    } else {
        with_name(speakers_of(segments.drop_last()), segments.last().user)
    }
}

/// The names stand in order, none twice.
pub open spec fn strictly_ordered(names: Seq<Seq<char>>) -> bool {
    forall|i: int, j: int| 0 <= i < j < names.len() ==> name_before(names[i], names[j])
}

proof fn lemma_bytes_order(a: Seq<u8>, b: Seq<u8>)
    ensures
        !bytes_before(a, a),
        a == b || bytes_before(a, b) || bytes_before(b, a),
    decreases a.len(),
{
    if a.len() > 0 {
        lemma_bytes_order(a.drop_first(), b.drop_first());
        if b.len() > 0 && a[0] == b[0] {
            if a.drop_first() == b.drop_first() {
                assert(a =~= seq![a[0]] + a.drop_first());
                assert(b =~= seq![b[0]] + b.drop_first());
            }
        }
    } else {
        assert(b.len() == 0 ==> a =~= b);
    }
}

proof fn lemma_bytes_transitive(a: Seq<u8>, b: Seq<u8>, c: Seq<u8>)
    requires
        bytes_before(a, b),
        bytes_before(b, c),
    ensures
        bytes_before(a, c),
    decreases a.len(),
{
    if a.len() > 0 && a[0] == b[0] && b[0] == c[0] {
        lemma_bytes_transitive(a.drop_first(), b.drop_first(), c.drop_first());
    }
}

proof fn lemma_names_comparable(a: Seq<char>, b: Seq<char>)
    ensures
        !name_before(a, a),
        a == b || name_before(a, b) || name_before(b, a),
{
    lemma_bytes_order(encode_utf8(a), encode_utf8(b));
    encode_utf8_decode_utf8(a);
    encode_utf8_decode_utf8(b);
}

proof fn lemma_with_name(names: Seq<Seq<char>>, name: Seq<char>)
    requires
        strictly_ordered(names),
    ensures
        strictly_ordered(with_name(names, name)),
        forall|n: Seq<char>|
            with_name(names, name).contains(n) <==> names.contains(n) || n == name,
    decreases names.len(),
{
    let result = with_name(names, name);
    if names.len() == 0 {
        assert(result[0] == name);
    } else {
        let init = names.drop_last();
        let last = names.last();
        assert(names =~= init.push(last));
        if last == name {
            assert(names[names.len() - 1] == name);
        } else if name_before(last, name) {
            assert forall|i: int, j: int| 0 <= i < j < result.len() implies name_before(
                result[i],
                result[j],
            ) by {
                if j == names.len() && i < names.len() - 1 {
                    assert(name_before(names[i], names[names.len() - 1]));
                    lemma_bytes_transitive(
                        encode_utf8(names[i]),
                        encode_utf8(last),
                        encode_utf8(name),
                    );
                }
            }
            assert forall|n: Seq<char>| names.contains(n) || n == name implies result.contains(
                n,
            ) by {
                if names.contains(n) {
                    let k = choose|k: int| 0 <= k < names.len() && names[k] == n;
                    assert(result[k] == n);
                } else {
                    assert(result[names.len() as int] == n);
                }
            }
        } else {
            lemma_with_name(init, name);
            lemma_names_comparable(last, name);
            let inner = with_name(init, name);
            assert forall|i: int, j: int| 0 <= i < j < result.len() implies name_before(
                result[i],
                result[j],
            ) by {
                if j == inner.len() {
                    assert(inner.contains(inner[i]));
                    if init.contains(inner[i]) {
                        let k = choose|k: int| 0 <= k < init.len() && init[k] == inner[i];
                        assert(name_before(names[k], names[names.len() - 1]));
                    }
                }
            }
            assert forall|n: Seq<char>|
                result.contains(n) <==> names.contains(n) || n == name by {
                assert(inner.contains(n) <==> init.contains(n) || n == name);
                if result.contains(n) {
                    let k = choose|k: int| 0 <= k < result.len() && result[k] == n;
                    if k < inner.len() {
                        assert(inner[k] == n);
                        if init.contains(n) {
                            let m = choose|m: int| 0 <= m < init.len() && init[m] == n;
                            assert(names[m] == n);
                        }
                    } else {
                        assert(names[names.len() - 1] == n);
                    }
                }
                if names.contains(n) {
                    let k = choose|k: int| 0 <= k < names.len() && names[k] == n;
                    if k < init.len() {
                        assert(init[k] == n);
                        let m = choose|m: int| 0 <= m < inner.len() && inner[m] == n;
                        assert(result[m] == n);
                    } else {
                        assert(result[inner.len() as int] == n);
                    }
                } else if n == name {
                    let m = choose|m: int| 0 <= m < inner.len() && inner[m] == n;
                    assert(result[m] == n);
                }
            }
        }
    }
}

/// The speakers stand in order, none twice; and a name is among them exactly
/// where some segment is of that name.
pub proof fn law_speakers(segments: Seq<SegmentView>)
    ensures
        strictly_ordered(speakers_of(segments)),
        forall|name: Seq<char>|
            speakers_of(segments).contains(name) <==> exists|i: int|
                0 <= i < segments.len() && (#[trigger] segments[i]).user == name,
    decreases segments.len(),
{
    if segments.len() > 0 {
        let init = segments.drop_last();
        law_speakers(init);
        lemma_with_name(speakers_of(init), segments.last().user);
        assert forall|name: Seq<char>|
            speakers_of(segments).contains(name) <==> exists|i: int|
                0 <= i < segments.len() && (#[trigger] segments[i]).user == name by {
            if speakers_of(init).contains(name) {
                let i = choose|i: int| 0 <= i < init.len() && (#[trigger] init[i]).user == name;
                assert(segments[i].user == name);
            }
            if exists|i: int| 0 <= i < segments.len() && (#[trigger] segments[i]).user == name {
                let i = choose|i: int|
                    0 <= i < segments.len() && (#[trigger] segments[i]).user == name;
                if i < init.len() {
                    assert(init[i].user == name);
                }
            }
        }
    }
}

/// Whether the first name comes before the second.
fn is_name_before(a: &str, b: &str) -> (r: bool)
    ensures
        r == name_before(a@, b@),
{
    let left: &[u8] = a.as_bytes();
    let right: &[u8] = b.as_bytes();
    let mut i: usize = 0;
    assert(left@.skip(0) =~= left@);
    assert(right@.skip(0) =~= right@);
    loop
        invariant
            left@ == encode_utf8(a@),
            right@ == encode_utf8(b@),
            i <= left@.len(),
            i <= right@.len(),
            bytes_before(left@, right@) == bytes_before(
                left@.skip(i as int),
                right@.skip(i as int),
            ),
        decreases left@.len() - i,
    {
        if i == right.len() {
            return false;
        }
        if i == left.len() {
            return true;
        }
        assert(left@.skip(i as int)[0] == left@[i as int]);
        assert(right@.skip(i as int)[0] == right@[i as int]);
        if left[i] != right[i] {
            return left[i] < right[i];
        }
        assert(left@.skip(i as int).drop_first() =~= left@.skip(i + 1));
        assert(right@.skip(i as int).drop_first() =~= right@.skip(i + 1));
        i += 1;
    }
}

/// Puts a name in its place in an ordered list, unless it is there already.
fn add_name(names: &mut Vec<String>, name: &String)
    ensures
        texts(final(names)@) == with_name(texts(old(names)@), name@),
{
    let ghost all = texts(names@);
    let mut i: usize = names.len();
    assert(all.take(i as int) =~= all);
    assert(all.skip(i as int) =~= Seq::<Seq<char>>::empty());
    assert(with_name(all, name@) =~= with_name(all, name@) + all.skip(i as int));
    while i > 0 && names[i - 1] != *name && !is_name_before(names[i - 1].as_str(), name.as_str())
        invariant
            all == texts(names@),
            *names == *old(names),
            i <= names@.len(),
            with_name(all, name@) == with_name(all.take(i as int), name@) + all.skip(i as int),
        decreases i,
    {
        let ghost head = all.take(i as int);
        assert(head.drop_last() =~= all.take(i - 1));
        assert(all.skip(i - 1) =~= seq![all[i - 1]] + all.skip(i as int));
        assert(with_name(head, name@) == with_name(all.take(i - 1), name@).push(all[i - 1]));
        assert(with_name(all, name@) =~= with_name(all.take(i - 1), name@) + all.skip(i - 1));
        i -= 1;
    }
    assert(all =~= all.take(i as int) + all.skip(i as int));
    if i > 0 && names[i - 1] == *name {
        return ;
    }
    names.insert(i, name.clone());
    assert(texts(names@) =~= all.take(i as int).push(name@) + all.skip(i as int));
    assert(i == 0 ==> all.take(i as int).push(name@) =~= seq![name@]);
}

/// Lists who speaks in the segments: each name once, in order.
pub fn speakers(segments: &[Segment]) -> (r: Vec<String>)
    ensures
        texts(r@) == speakers_of(segment_views(segments@)),
{
    let mut names: Vec<String> = Vec::new();
    let ghost all = segment_views(segments@);
    assert(texts(names@) =~= speakers_of(all.take(0)));
    for i in 0..segments.len()
        invariant
            all == segment_views(segments@),
            texts(names@) == speakers_of(all.take(i as int)),
    {
        assert(all.take(i + 1).drop_last() =~= all.take(i as int));
        add_name(&mut names, &segments[i].user);
    }
    assert(all.take(all.len() as int) =~= all);
    names
}

// ---------------------------------------------------------------------------
// Messages
// ---------------------------------------------------------------------------

/// A segment as a line of a message.
pub open spec fn message_line(segment: SegmentView) -> Seq<char> {
    "`"@ + clock(whole_seconds(segment.start)) + "` *"@ + segment.user + "*: "@ + segment.text
}

/// A segment as a line of the raw transcript.
pub open spec fn transcript_line(segment: SegmentView) -> Seq<char> {
    "["@ + clock(whole_seconds(segment.start)) + "] "@ + segment.user + ": "@ + segment.text
}

/// The segments as lines of a message.
pub open spec fn message_lines(segments: Seq<SegmentView>) -> Seq<Seq<char>> {
    segments.map_values(|s: SegmentView| message_line(s))
}

/// The segments as lines of the raw transcript.
pub open spec fn transcript_lines(segments: Seq<SegmentView>) -> Seq<Seq<char>> {
    segments.map_values(|s: SegmentView| transcript_line(s))
}

/// The names of the speakers in one line.
pub open spec fn speakers_text(names: Seq<Seq<char>>) -> Seq<char> {
    if names.len() == 0 {
        "aucun détecté"@
    } else {
        join(names, ", "@)
    }
}

/// The messages that lines make.
pub open spec fn chunks_of_lines(lines: Seq<Seq<char>>) -> Seq<Seq<char>> {
    chunks_of(join(lines, seq!['\n']))
}

/// The title of a batch, given the local times at which it starts and ends.
pub open spec fn batch_header(number: nat, start: Seq<char>, end: Seq<char>) -> Seq<char> {
    "*[Batch "@ + decimal(number) + " — "@ + start + "→"@ + end + "]*\n"@
}

/// The messages for a batch, given the local times at which it starts and ends.
pub open spec fn batch_messages(
    segments: Seq<SegmentView>,
    number: nat,
    start: Seq<char>,
    end: Seq<char>,
) -> Seq<Seq<char>> {
    let header = batch_header(number, start, end);
    if segments.len() == 0 {
        seq![header + "_(aucune prise de parole détectée)_"@]
    } else {
        chunks_of_lines(seq![header] + message_lines(segments))
    }
}

/// The lines above the raw transcript, given the local date, the local times of
/// its start and end, and its duration in seconds.
pub open spec fn transcript_header(
    names: Seq<Seq<char>>,
    channel: Seq<char>,
    date: Seq<char>,
    start: Seq<char>,
    end: Seq<char>,
    duration: nat,
) -> Seq<Seq<char>> {
    seq![
        "WAR ROOM TRANSCRIPT — #"@ + channel,
        "Date     : "@ + date,
        "Start    : "@ + start,
        "End      : "@ + end,
        "Duration : "@ + minutes_seconds(duration),
        "Speakers : "@ + speakers_text(names),
        Seq::<char>::empty(),
        "---"@,
        Seq::<char>::empty(),
    ]
}

/// The messages for the raw transcript.
pub open spec fn transcript_messages(
    segments: Seq<SegmentView>,
    channel: Seq<char>,
    date: Seq<char>,
    start: Seq<char>,
    end: Seq<char>,
    duration: nat,
) -> Seq<Seq<char>> {
    chunks_of_lines(
        transcript_header(speakers_of(segments), channel, date, start, end, duration)
            + if segments.len() == 0 {
            seq!["(no speech detected)"@]
        } else {
            transcript_lines(segments)
        },
    )
}

/// The lines above the timeline of the summary, given the local date, the local
/// times of its start and end, and its duration in seconds.
pub open spec fn summary_header(
    names: Seq<Seq<char>>,
    channel: Seq<char>,
    date: Seq<char>,
    start: Seq<char>,
    end: Seq<char>,
    duration: nat,
) -> Seq<Seq<char>> {
    seq![
        "*Résumé War Room — #"@ + channel + "*"@,
        "*Date :* "@ + date,
        "*Durée :* "@ + minutes_seconds(duration) + "  |  *Début :* "@ + start
            + "  |  *Fin :* "@ + end,
        "*Participants :* "@ + speakers_text(names),
        Seq::<char>::empty(),
        "─────────────────────────"@,
        "*Timeline complète*"@,
        Seq::<char>::empty(),
    ]
}

/// The messages for the summary.
pub open spec fn summary_messages(
    segments: Seq<SegmentView>,
    channel: Seq<char>,
    date: Seq<char>,
    start: Seq<char>,
    end: Seq<char>,
    duration: nat,
) -> Seq<Seq<char>> {
    chunks_of_lines(
        summary_header(speakers_of(segments), channel, date, start, end, duration)
            + if segments.len() == 0 {
            seq!["_(aucune prise de parole détectée)_"@]
        } else {
            message_lines(segments)
        },
    )
}

/// Appends a line made of a label and a text.
fn push_labelled(lines: &mut Vec<String>, label: &str, text: &str)
    ensures
        texts(final(lines)@) == texts(old(lines)@).push(label@ + text@),
{
    let mut line = label.to_owned();
    line.append(text);
    let ghost last = line@;
    lines.push(line);
    assert(texts(lines@) =~= texts(old(lines)@).push(last));
}

/// Appends a line.
fn push_line(lines: &mut Vec<String>, text: &str)
    ensures
        texts(final(lines)@) == texts(old(lines)@).push(text@),
{
    lines.push(text.to_owned());
    assert(texts(lines@) =~= texts(old(lines)@).push(text@));
}

/// Appends a line of a message for each segment.
fn push_message_lines(lines: &mut Vec<String>, segments: &[Segment])
    ensures
        texts(final(lines)@) == texts(old(lines)@) + message_lines(segment_views(segments@)),
{
    let ghost all = message_lines(segment_views(segments@));
    assert(texts(lines@) =~= texts(lines@) + all.take(0));
    for i in 0..segments.len()
        invariant
            all == message_lines(segment_views(segments@)),
            texts(lines@) == texts(old(lines)@) + all.take(i as int),
    {
        let mut line = "`".to_owned();
        line.append(fmt_ts(segments[i].start).as_str());
        line.append("` *");
        line.append(segments[i].user.as_str());
        line.append("*: ");
        line.append(segments[i].text.as_str());
        let ghost before = texts(lines@);
        let ghost last = line@;
        lines.push(line);
        assert(texts(lines@) =~= before.push(last));
        assert(texts(lines@) =~= texts(old(lines)@) + all.take(i + 1));
    }
    assert(all.take(all.len() as int) =~= all);
}

/// Appends a line of the raw transcript for each segment.
fn push_transcript_lines(lines: &mut Vec<String>, segments: &[Segment])
    ensures
        texts(final(lines)@) == texts(old(lines)@) + transcript_lines(segment_views(segments@)),
{
    let ghost all = transcript_lines(segment_views(segments@));
    assert(texts(lines@) =~= texts(lines@) + all.take(0));
    for i in 0..segments.len()
        invariant
            all == transcript_lines(segment_views(segments@)),
            texts(lines@) == texts(old(lines)@) + all.take(i as int),
    {
        let mut line = "[".to_owned();
        line.append(fmt_ts(segments[i].start).as_str());
        line.append("] ");
        line.append(segments[i].user.as_str());
        line.append(": ");
        line.append(segments[i].text.as_str());
        let ghost before = texts(lines@);
        let ghost last = line@;
        lines.push(line);
        assert(texts(lines@) =~= before.push(last));
        assert(texts(lines@) =~= texts(old(lines)@) + all.take(i + 1));
    }
    assert(all.take(all.len() as int) =~= all);
}

/// Makes messages of lines.
fn chunk_lines(lines: &Vec<String>) -> (r: Vec<String>)
    ensures
        texts(r@) == chunks_of_lines(texts(lines@)),
{
    proof {
        reveal_strlit("\n");
        assert("\n"@ =~= seq!['\n']);
    }
    split_into_chunks(join_strings(lines, "\n").as_str())
}

/// Prints the names of the speakers in one line.
fn fmt_speakers(names: &Vec<String>) -> (r: String)
    ensures
        r@ == speakers_text(texts(names@)),
{
    if names.len() == 0 {
        "aucun détecté".to_owned()
    } else {
        join_strings(names, ", ")
    }
}

/// Lays a batch out as messages, given the local times at which it starts and
/// ends.
pub fn layout_batch(segments: &[Segment], batch_number: u32, start: &str, end: &str) -> (r: Vec<
    String,
>)
    ensures
        texts(r@) == batch_messages(segment_views(segments@), batch_number as nat, start@, end@),
{
    let mut header = "*[Batch ".to_owned();
    push_decimal(&mut header, batch_number as u64);
    header.append(" — ");
    header.append(start);
    header.append("→");
    header.append(end);
    header.append("]*\n");
    let ghost title = header@;
    if segments.len() == 0 {
        header.append("_(aucune prise de parole détectée)_");
        let ghost only = header@;
        let r: Vec<String> = vec![header];
        assert(texts(r@) =~= seq![only]);
        return r;
    }
    let mut lines: Vec<String> = vec![header];
    assert(texts(lines@) =~= seq![title]);
    push_message_lines(&mut lines, segments);
    chunk_lines(&lines)
}

/// Lays the raw transcript out as messages, given the local date, the local times
/// of its start and end, and its duration in seconds.
pub fn layout_transcript(
    all_segments: &[Segment],
    channel_name: &str,
    date: &str,
    start: &str,
    end: &str,
    duration: u64,
) -> (r: Vec<String>)
    ensures
        texts(r@) == transcript_messages(
            segment_views(all_segments@),
            channel_name@,
            date@,
            start@,
            end@,
            duration as nat,
        ),
{
    let names = speakers(all_segments);
    let mut lines: Vec<String> = Vec::new();
    push_labelled(&mut lines, "WAR ROOM TRANSCRIPT — #", channel_name);
    push_labelled(&mut lines, "Date     : ", date);
    push_labelled(&mut lines, "Start    : ", start);
    push_labelled(&mut lines, "End      : ", end);
    push_labelled(&mut lines, "Duration : ", fmt_duration(duration).as_str());
    push_labelled(&mut lines, "Speakers : ", fmt_speakers(&names).as_str());
    push_line(&mut lines, "");
    push_line(&mut lines, "---");
    push_line(&mut lines, "");
    proof {
        reveal_strlit("");
        assert(""@ =~= Seq::<char>::empty());
        assert(texts(lines@) =~= transcript_header(
            texts(names@),
            channel_name@,
            date@,
            start@,
            end@,
            duration as nat,
        ));
    }
    if all_segments.len() == 0 {
        let ghost before = texts(lines@);
        push_line(&mut lines, "(no speech detected)");
        assert(texts(lines@) =~= before + seq!["(no speech detected)"@]);
    } else {
        push_transcript_lines(&mut lines, all_segments);
    }
    chunk_lines(&lines)
}

/// Lays the summary out as messages, given the local date, the local times of its
/// start and end, and its duration in seconds.
pub fn layout_summary(
    all_segments: &[Segment],
    channel_name: &str,
    date: &str,
    start: &str,
    end: &str,
    duration: u64,
) -> (r: Vec<String>)
    ensures
        texts(r@) == summary_messages(
            segment_views(all_segments@),
            channel_name@,
            date@,
            start@,
            end@,
            duration as nat,
        ),
{
    let names = speakers(all_segments);
    let mut title = "*Résumé War Room — #".to_owned();
    title.append(channel_name);
    title.append("*");
    let mut when = "*Durée :* ".to_owned();
    when.append(fmt_duration(duration).as_str());
    when.append("  |  *Début :* ");
    when.append(start);
    when.append("  |  *Fin :* ");
    when.append(end);
    let mut lines: Vec<String> = Vec::new();
    push_line(&mut lines, title.as_str());
    push_labelled(&mut lines, "*Date :* ", date);
    push_line(&mut lines, when.as_str());
    push_labelled(&mut lines, "*Participants :* ", fmt_speakers(&names).as_str());
    push_line(&mut lines, "");
    push_line(&mut lines, "─────────────────────────");
    push_line(&mut lines, "*Timeline complète*");
    push_line(&mut lines, "");
    proof {
        reveal_strlit("");
        assert(""@ =~= Seq::<char>::empty());
        assert(texts(lines@) =~= summary_header(
            texts(names@),
            channel_name@,
            date@,
            start@,
            end@,
            duration as nat,
        ));
    }
    if all_segments.len() == 0 {
        let ghost before = texts(lines@);
        push_line(&mut lines, "_(aucune prise de parole détectée)_");
        assert(texts(lines@) =~= before + seq!["_(aucune prise de parole détectée)_"@]);
    } else {
        push_message_lines(&mut lines, all_segments);
    }
    chunk_lines(&lines)
}

/// The messages for a batch, posted while the recording goes on.
pub fn format_raw_batch(
    segments: &[Segment],
    batch_number: u32,
    batch_start: Timestamp,
    batch_end: Timestamp,
) -> (r: Vec<String>)
    ensures
        texts(r@) == batch_messages(
            segment_views(segments@),
            batch_number as nat,
            montreal_time(batch_start@, "%H:%M"@),
            montreal_time(batch_end@, "%H:%M"@),
        ),
{
    let start = batch_start.to_local("%H:%M");
    let end = batch_end.to_local("%H:%M");
    layout_batch(segments, batch_number, start.as_str(), end.as_str())
}

/// The messages for the raw transcript of a whole recording.
pub fn format_raw_full(
    all_segments: &[Segment],
    channel_name: &str,
    start_time: Timestamp,
    end_time: Timestamp,
) -> (r: Vec<String>)
    ensures
        texts(r@) == transcript_messages(
            segment_views(all_segments@),
            channel_name@,
            montreal_time(start_time@, "%Y-%m-%d"@),
            montreal_time(start_time@, "%H:%M:%S %Z"@),
            montreal_time(end_time@, "%H:%M:%S %Z"@),
            duration_seconds(start_time@, end_time@),
        ),
{
    let duration = duration_between(start_time, end_time);
    let date = start_time.to_local("%Y-%m-%d");
    let start = start_time.to_local("%H:%M:%S %Z");
    let end = end_time.to_local("%H:%M:%S %Z");
    layout_transcript(
        all_segments,
        channel_name,
        date.as_str(),
        start.as_str(),
        end.as_str(),
        duration,
    )
}

/// The messages for the summary of a whole recording.
pub fn format_structured(
    all_segments: &[Segment],
    channel_name: &str,
    start_time: Timestamp,
    end_time: Timestamp,
) -> (r: Vec<String>)
    ensures
        texts(r@) == summary_messages(
            segment_views(all_segments@),
            channel_name@,
            montreal_time(start_time@, "%Y-%m-%d"@),
            montreal_time(start_time@, "%H:%M %Z"@),
            montreal_time(end_time@, "%H:%M %Z"@),
            duration_seconds(start_time@, end_time@),
        ),
{
    let duration = duration_between(start_time, end_time);
    let date = start_time.to_local("%Y-%m-%d");
    let start = start_time.to_local("%H:%M %Z");
    let end = end_time.to_local("%H:%M %Z");
    layout_summary(
        all_segments,
        channel_name,
        date.as_str(),
        start.as_str(),
        end.as_str(),
        duration,
    )
}

} // verus!
