use warroom_scribe::formatter::{
    duration_between, fmt_duration, fmt_ts, format_raw_batch, format_raw_full, format_structured,
    layout_batch, layout_summary, layout_transcript, speakers, split_into_chunks, SLACK_MSG_LIMIT,
};
use warroom_scribe::session::Segment;
use warroom_scribe::time::Timestamp;

fn segment(user: &str, start: i128, text: &str) -> Segment {
    Segment { user: user.to_string(), start, end: start + 1000, text: text.to_string() }
}

fn at(secs: i64) -> Timestamp {
    Timestamp::new(secs, 0).unwrap()
}

#[test]
fn short_text_is_one_message() {
    assert_eq!(split_into_chunks("bonjour"), vec!["bonjour".to_string()]);
    assert_eq!(split_into_chunks(""), vec!["".to_string()]);
    let full = "x".repeat(SLACK_MSG_LIMIT);
    assert_eq!(split_into_chunks(&full), vec![full.clone()]);
}

#[test]
fn the_limit_counts_bytes() {
    let text = format!("{}\n{}", "é".repeat(1000), "é".repeat(600));
    let chunks = split_into_chunks(&text);
    assert_eq!(chunks.len(), 2);
    assert_eq!(chunks[0], format!("{}\n_(partie 1/2)_", "é".repeat(1000)));
    assert_eq!(chunks[1], format!("{}\n_(partie 2/2)_", "é".repeat(600)));
}

#[test]
fn a_long_line_is_not_cut() {
    let text = "x".repeat(5000);
    assert_eq!(split_into_chunks(&text), vec![text.clone()]);
    let two = format!("a\n{}", text);
    assert_eq!(
        split_into_chunks(&two),
        vec!["a\n_(partie 1/2)_".to_string(), format!("{}\n_(partie 2/2)_", text)]
    );
}

#[test]
fn a_part_may_reach_the_limit_with_its_line_feed() {
    // 1499 bytes and 1499 bytes count 1500 each: together exactly the limit.
    let line = "x".repeat(1499);
    let text = format!("{}\n{}\ny", line, line);
    let chunks = split_into_chunks(&text);
    assert_eq!(chunks.len(), 2);
    assert_eq!(chunks[0], format!("{}\n{}\n_(partie 1/2)_", line, line));
    assert_eq!(chunks[1], "y\n_(partie 2/2)_");
    // The position takes fifteen bytes more.
    assert_eq!(chunks[0].len(), 2999 + 15);
    // One byte more and the second line opens a part of its own.
    let text = format!("{}\n{}x\ny", line, line);
    let chunks = split_into_chunks(&text);
    assert_eq!(chunks[0], format!("{}\n_(partie 1/2)_", line));
    assert_eq!(chunks[1], format!("{}x\ny\n_(partie 2/2)_", line));
}

#[test]
fn the_parts_make_the_text_again() {
    let mut text = String::new();
    for i in 0..900 {
        text.push_str(&format!("ligne {} — é\n", i * i));
    }
    let chunks = split_into_chunks(&text);
    let total = chunks.len();
    assert!(total > 3);
    let mut parts: Vec<String> = Vec::new();
    for (i, chunk) in chunks.iter().enumerate() {
        let tail = format!("\n_(partie {}/{})_", i + 1, total);
        assert!(chunk.ends_with(&tail));
        let part = &chunk[..chunk.len() - tail.len()];
        assert!(part.len() < SLACK_MSG_LIMIT);
        parts.push(part.to_string());
    }
    assert_eq!(parts.join("\n"), text);
    for i in 0..total - 1 {
        let next = parts[i + 1].split('\n').next().unwrap();
        assert!(parts[i].len() + 1 + next.len() + 1 > SLACK_MSG_LIMIT);
    }
}

#[test]
fn times_read_as_minutes_and_seconds() {
    assert_eq!(fmt_ts(0), "00:00");
    assert_eq!(fmt_ts(999), "00:00");
    assert_eq!(fmt_ts(1000), "00:01");
    assert_eq!(fmt_ts(65_900), "01:05");
    assert_eq!(fmt_ts(3_599_999), "59:59");
    assert_eq!(fmt_ts(3_600_000), "01:00:00");
    assert_eq!(fmt_ts(3_661_000), "01:01:01");
    assert_eq!(fmt_ts(360_000_000), "100:00:00");
    assert_eq!(fmt_ts(-5000), "00:00");
}

#[test]
fn times_beyond_all_bounds_stay_at_the_last_one() {
    // 18446744073709551615 s = 5124095576030431 h 0 min 15 s
    assert_eq!(fmt_ts(i128::MAX), "5124095576030431:00:15");
    assert_eq!(fmt_ts(i128::MIN), "00:00");
    assert_eq!(fmt_ts(u64::MAX as i128 * 1000), "5124095576030431:00:15");
}

#[test]
fn durations_read_as_minutes_and_seconds() {
    assert_eq!(fmt_duration(0), "0m 0s");
    assert_eq!(fmt_duration(59), "0m 59s");
    assert_eq!(fmt_duration(3725), "62m 5s");
    assert_eq!(duration_between(at(100), at(3825)), 3725);
    assert_eq!(duration_between(at(100), at(99)), 0);
    let late = Timestamp::new(100, 900_000_000).unwrap();
    assert_eq!(duration_between(late, at(102)), 1);
}

#[test]
fn speakers_are_listed_once_in_order() {
    let segments = vec![
        segment("Zoé", 0, "a"),
        segment("anne", 1, "b"),
        segment("Zoé", 2, "c"),
        segment("Éric", 3, "d"),
        segment("Bob", 4, "e"),
        segment("Bo", 5, "f"),
    ];
    let expected: Vec<String> = segments
        .iter()
        .map(|s| s.user.clone())
        .collect::<std::collections::BTreeSet<String>>()
        .into_iter()
        .collect();
    assert_eq!(speakers(&segments), expected);
    assert_eq!(speakers(&segments), vec!["Bo", "Bob", "Zoé", "anne", "Éric"]);
    assert!(speakers(&[]).is_empty());
}

#[test]
fn a_batch_is_laid_out() {
    let segments = vec![segment("Anne", 5_000, "bonjour"), segment("Bob", 65_000, "salut")];
    assert_eq!(
        layout_batch(&segments, 3, "12:30", "12:35"),
        vec!["*[Batch 3 — 12:30→12:35]*\n\n`00:05` *Anne*: bonjour\n`01:05` *Bob*: salut"]
    );
    assert_eq!(
        layout_batch(&[], 1, "12:30", "12:35"),
        vec!["*[Batch 1 — 12:30→12:35]*\n_(aucune prise de parole détectée)_"]
    );
}

#[test]
fn a_batch_is_printed_in_local_time() {
    let segments = vec![segment("Anne", 0, "oui")];
    assert_eq!(
        format_raw_batch(&segments, 1, at(1705339845), at(1705340145)),
        vec!["*[Batch 1 — 12:30→12:35]*\n\n`00:00` *Anne*: oui"]
    );
}

#[test]
fn the_transcript_is_laid_out() {
    let segments = vec![segment("Bob", 5_000, "oui"), segment("Anne", 3_661_000, "non")];
    let expected = "WAR ROOM TRANSCRIPT — #incident\n\
                    Date     : 2024-01-15\n\
                    Start    : 12:30:45 EST\n\
                    End      : 13:32:50 EST\n\
                    Duration : 62m 5s\n\
                    Speakers : Anne, Bob\n\
                    \n\
                    ---\n\
                    \n\
                    [00:05] Bob: oui\n\
                    [01:01:01] Anne: non";
    assert_eq!(
        layout_transcript(
            &segments,
            "incident",
            "2024-01-15",
            "12:30:45 EST",
            "13:32:50 EST",
            3725
        ),
        vec![expected]
    );
    assert_eq!(
        format_raw_full(&segments, "incident", at(1705339845), at(1705343570)),
        vec![expected]
    );
}

#[test]
fn a_silent_transcript_says_so() {
    assert_eq!(
        format_raw_full(&[], "incident", at(1705339845), at(1705339845)),
        vec![
            "WAR ROOM TRANSCRIPT — #incident\n\
             Date     : 2024-01-15\n\
             Start    : 12:30:45 EST\n\
             End      : 12:30:45 EST\n\
             Duration : 0m 0s\n\
             Speakers : aucun détecté\n\
             \n\
             ---\n\
             \n\
             (no speech detected)"
        ]
    );
}

#[test]
fn the_summary_is_laid_out() {
    let segments = vec![segment("Bob", 5_000, "oui"), segment("Anne", 65_000, "non")];
    let expected = "*Résumé War Room — #incident*\n\
                    *Date :* 2024-07-15\n\
                    *Durée :* 5m 0s  |  *Début :* 12:05 EDT  |  *Fin :* 12:10 EDT\n\
                    *Participants :* Anne, Bob\n\
                    \n\
                    ─────────────────────────\n\
                    *Timeline complète*\n\
                    \n\
                    `00:05` *Bob*: oui\n\
                    `01:05` *Anne*: non";
    assert_eq!(
        layout_summary(&segments, "incident", "2024-07-15", "12:05 EDT", "12:10 EDT", 300),
        vec![expected]
    );
    assert_eq!(
        format_structured(&segments, "incident", at(1721059509), at(1721059809)),
        vec![expected]
    );
}

#[test]
fn a_silent_summary_says_so() {
    assert_eq!(
        format_structured(&[], "incident", at(1721059509), at(1721059500)),
        vec![
            "*Résumé War Room — #incident*\n\
             *Date :* 2024-07-15\n\
             *Durée :* 0m 0s  |  *Début :* 12:05 EDT  |  *Fin :* 12:05 EDT\n\
             *Participants :* aucun détecté\n\
             \n\
             ─────────────────────────\n\
             *Timeline complète*\n\
             \n\
             _(aucune prise de parole détectée)_"
        ]
    );
}

#[test]
fn a_long_transcript_is_split() {
    let segments: Vec<Segment> =
        (0..100).map(|i| segment("Anne", i * 1000, &"mot ".repeat(20))).collect();
    let chunks = format_raw_full(&segments, "incident", at(1705339845), at(1705340145));
    assert!(chunks.len() > 2);
    assert!(chunks[0].starts_with("WAR ROOM TRANSCRIPT — #incident\n"));
    assert!(chunks[0].ends_with(&format!("\n_(partie 1/{})_", chunks.len())));
}
