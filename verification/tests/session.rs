use std::collections::HashMap;
use warroom_scribe::session::{RecordingSession, Segment};
use warroom_scribe::time::Timestamp;
use warroom_scribe::voice_handler::VoiceEvent;

const START: i64 = 1705339845;

fn after(millis: i64) -> Timestamp {
    Timestamp::new(START + millis / 1000, (millis % 1000) as u32 * 1_000_000).unwrap()
}

fn recording(names: &[(u64, &str)]) -> RecordingSession {
    let names: HashMap<u64, String> = names.iter().map(|(id, n)| (*id, n.to_string())).collect();
    RecordingSession::new_at(
        1,
        "incident".to_string(),
        "#warroom".to_string(),
        "1705339845.000100".to_string(),
        300,
        names,
        after(0),
    )
}

fn segment(user: &str, start: i128, text: &str) -> Segment {
    Segment { user: user.to_string(), start, end: start + 500, text: text.to_string() }
}

#[test]
fn a_new_recording_is_empty() {
    let mut session = recording(&[(1000, "Anne")]);
    assert_eq!(session.guild_id, 1);
    assert_eq!(session.voice_channel_name, "incident");
    assert_eq!(session.slack_channel, "#warroom");
    assert_eq!(session.slack_thread_ts, "1705339845.000100");
    assert_eq!(session.flush_interval_secs, 300);
    assert_eq!(session.start_time, after(0));
    assert_eq!(session.batch_count(), 0);
    assert!(session.all_segments().is_empty());
    assert!(session.flush_batch_at(after(1)).is_none());
}

#[test]
fn a_recording_begins_now() {
    let before = Timestamp::now();
    let session = RecordingSession::new(
        1,
        "a".to_string(),
        "b".to_string(),
        "c".to_string(),
        60,
        HashMap::new(),
    );
    assert!(session.start_time.millis_since(before) >= 0);
    assert_eq!(session.duration_str(), "0m 0s");
}

#[test]
fn the_duration_is_printed() {
    let session = recording(&[]);
    assert_eq!(session.duration_str_at(after(3_725_999)), "62m 5s");
    assert_eq!(session.duration_str_at(Timestamp::new(START - 10, 0).unwrap()), "0m 0s");
}

#[test]
fn registered_audio_goes_to_its_speaker() {
    let mut session = recording(&[(1000, "Anne"), (2000, "Bob")]);
    session.register_ssrc(7, 1000, "User#1000".to_string());
    session.push_audio_at(7, &[1, 2], after(1500));
    session.push_audio_at(7, &[3], after(9000));
    let batch = session.flush_batch_at(after(10_000)).unwrap();
    assert_eq!(batch.buffers.len(), 1);
    assert_eq!(batch.buffers[&1000], vec![1, 2, 3]);
    assert_eq!(batch.audio_offsets[&1000], 1500);
    assert_eq!(batch.user_names[&1000], "Anne");
    assert_eq!(batch.user_names[&2000], "Bob");
    assert_eq!(batch.number, 1);
    assert_eq!(batch.start, after(0));
    assert_eq!(batch.end, after(10_000));
}

#[test]
fn the_only_person_without_a_source_gets_it() {
    let mut session = recording(&[(1000, "Anne"), (2000, "Bob")]);
    session.register_ssrc(7, 1000, "x".to_string());
    session.push_audio_at(9, &[5], after(0));
    let batch = session.flush_batch_at(after(1)).unwrap();
    assert_eq!(batch.buffers[&2000], vec![5]);
    assert_eq!(batch.user_names.len(), 2);
}

#[test]
fn an_unknown_source_has_a_placeholder() {
    let mut session = recording(&[]);
    session.push_audio_at(82, &[1], after(250));
    session.push_audio_at(83, &[2], after(300));
    let batch = session.flush_batch_at(after(1000)).unwrap();
    assert_eq!(batch.buffers[&82], vec![1]);
    assert_eq!(batch.user_names[&82], "User#82");
    assert_eq!(batch.audio_offsets[&82], 250);
    assert_eq!(batch.buffers[&83], vec![2]);
    assert_eq!(batch.user_names[&83], "User#83");
}

#[test]
fn a_registration_takes_the_audio_of_the_placeholder_over() {
    let mut session = recording(&[(1000, "Anne"), (2000, "Bob"), (3000, "Chloé")]);
    session.register_ssrc(7, 1000, "x".to_string());
    session.push_audio_at(7, &[1], after(100));
    session.push_audio_at(82, &[2, 3], after(200));
    session.register_ssrc(82, 1000, "x".to_string());
    session.push_audio_at(82, &[4], after(300));
    let batch = session.flush_batch_at(after(1000)).unwrap();
    assert_eq!(batch.buffers.len(), 1);
    assert_eq!(batch.buffers[&1000], vec![1, 2, 3, 4]);
    assert_eq!(batch.user_names[&1000], "Anne");
    assert!(!batch.user_names.contains_key(&82));
    // Anne has an offset of their own; the one of the placeholder is gone.
    assert_eq!(batch.audio_offsets.len(), 1);
    assert_eq!(batch.audio_offsets[&1000], 100);
}

#[test]
fn a_registration_takes_the_offset_of_the_placeholder_over() {
    let mut session = recording(&[(1000, "Anne"), (2000, "Bob")]);
    session.push_audio_at(82, &[2, 3], after(200));
    session.register_ssrc(82, 1000, "x".to_string());
    session.push_audio_at(82, &[4], after(300));
    let batch = session.flush_batch_at(after(1000)).unwrap();
    assert_eq!(batch.buffers[&1000], vec![2, 3, 4]);
    assert_eq!(batch.audio_offsets.len(), 1);
    assert_eq!(batch.audio_offsets[&1000], 200);
}

#[test]
fn all_audio_is_timed() {
    let mut session = recording(&[(1000, "Anne"), (2000, "Bob"), (3000, "Chloé")]);
    for i in 0..12u32 {
        session.push_audio_at(50 + i % 6, &[1], after(10 * i as i64));
        if i == 4 {
            session.register_ssrc(52, 3000, "x".to_string());
        }
        if i == 8 {
            session.register_ssrc(53, 3000, "x".to_string());
        }
    }
    let batch = session.flush_batch_at(after(1000)).unwrap();
    let mut heard: Vec<u64> = batch.buffers.keys().copied().collect();
    let mut timed: Vec<u64> = batch.audio_offsets.keys().copied().collect();
    heard.sort();
    timed.sort();
    assert_eq!(heard, timed);
    assert_eq!(batch.audio_offsets[&3000], 20);
}

#[test]
fn what_is_not_paired_stays() {
    let mut session = recording(&[(1000, "Anne"), (2000, "Bob"), (3000, "Chloé")]);
    session.register_ssrc(7, 3000, "x".to_string());
    session.push_audio_at(91, &[1], after(10));
    session.push_audio_at(92, &[2], after(20));
    session.push_audio_at(93, &[3], after(30));
    session.push_audio_at(7, &[4], after(40));
    let batch = session.flush_batch_at(after(1000)).unwrap();
    assert_eq!(batch.audio_offsets[&1000], 10);
    assert_eq!(batch.audio_offsets[&2000], 20);
    assert_eq!(batch.audio_offsets[&93], 30);
    assert_eq!(batch.audio_offsets[&3000], 40);
    assert_eq!(batch.audio_offsets.len(), 4);
    assert_eq!(batch.user_names.len(), 4);
    assert_eq!(batch.user_names[&93], "User#93");
    assert_eq!(batch.user_names[&3000], "Chloé");
    session.push_audio_at(7, &[5], after(1100));
    session.push_audio_at(93, &[6], after(1100));
    let batch = session.flush_batch_at(after(2000)).unwrap();
    assert_eq!(batch.buffers[&3000], vec![5]);
    assert_eq!(batch.buffers[&93], vec![6]);
}

#[test]
fn a_registration_names_only_the_unknown() {
    let mut session = recording(&[(1000, "Anne")]);
    session.register_ssrc(7, 1000, "Autre".to_string());
    session.register_ssrc(8, 4000, "Dan".to_string());
    session.push_audio_at(7, &[1], after(0));
    let batch = session.flush_batch_at(after(1)).unwrap();
    assert_eq!(batch.user_names[&1000], "Anne");
    assert_eq!(batch.user_names[&4000], "Dan");
}

#[test]
fn placeholders_are_given_to_persons_in_order() {
    let mut session = recording(&[(3000, "Chloé"), (1000, "Anne"), (2000, "Bob")]);
    session.push_audio_at(90, &[9], after(500));
    session.push_audio_at(80, &[8], after(600));
    let batch = session.flush_batch_at(after(1000)).unwrap();
    // 80 → 1000, 90 → 2000
    assert_eq!(batch.buffers[&1000], vec![8]);
    assert_eq!(batch.buffers[&2000], vec![9]);
    assert_eq!(batch.audio_offsets[&1000], 600);
    assert_eq!(batch.audio_offsets[&2000], 500);
    assert_eq!(batch.user_names.len(), 3);
    assert!(!batch.user_names.contains_key(&80));
    // The sources stay with their persons.
    session.push_audio_at(80, &[7], after(1100));
    let batch = session.flush_batch_at(after(2000)).unwrap();
    assert_eq!(batch.buffers[&1000], vec![7]);
    assert_eq!(batch.audio_offsets[&1000], 100);
}

#[test]
fn placeholders_without_a_person_stay() {
    let mut session = recording(&[(1000, "Anne"), (2000, "Bob")]);
    session.push_audio_at(91, &[1], after(0));
    session.push_audio_at(92, &[2], after(0));
    session.push_audio_at(93, &[3], after(0));
    let batch = session.flush_batch_at(after(1000)).unwrap();
    assert_eq!(batch.buffers[&1000], vec![1]);
    assert_eq!(batch.buffers[&2000], vec![2]);
    assert_eq!(batch.buffers[&93], vec![3]);
    assert_eq!(batch.user_names[&93], "User#93");
}

#[test]
fn every_sample_is_handed_out_once() {
    let mut session = recording(&[(1000, "Anne"), (2000, "Bob"), (3000, "Chloé")]);
    let mut pushed = 0;
    for i in 0..50u32 {
        let samples = vec![i as i16; (i % 4) as usize];
        pushed += samples.len();
        session.push_audio_at(40 + i % 5, &samples, after(i as i64));
        if i == 20 {
            session.register_ssrc(42, 3000, "x".to_string());
        }
    }
    let batch = session.flush_batch_at(after(1000)).unwrap();
    let handed: usize = batch.buffers.values().map(|b| b.len()).sum();
    assert_eq!(handed, pushed);
    assert!(session.flush_batch_at(after(2000)).is_none());
}

#[test]
fn batches_follow_one_another() {
    let mut session = recording(&[]);
    assert!(session.flush_batch_at(after(300_000)).is_none());
    session.push_audio_at(5, &[1], after(310_000));
    let batch = session.flush_batch_at(after(600_000)).unwrap();
    assert_eq!(batch.number, 2);
    assert_eq!(batch.start, after(300_000));
    assert_eq!(batch.end, after(600_000));
    assert_eq!(batch.audio_offsets[&5], 10_000);
    assert_eq!(session.batch_count(), 2);
}

#[test]
fn what_was_said_is_timed_from_the_start() {
    let mut session = recording(&[]);
    session.push_audio_at(5, &[1], after(0));
    let first = session.flush_batch_at(after(300_000)).unwrap();
    session.push_audio_at(5, &[1], after(300_100));
    let second = session.flush_batch_at(after(600_000)).unwrap();
    let messages = session.finish_batch(&first, &vec![segment("Anne", 5_000, "un")]);
    assert_eq!(messages, vec!["*[Batch 1 — 12:30→12:35]*\n\n`00:05` *Anne*: un"]);
    let messages = session.finish_batch(&second, &vec![segment("Bob", 1_000, "deux")]);
    assert_eq!(messages, vec!["*[Batch 2 — 12:35→12:40]*\n\n`00:01` *Bob*: deux"]);
    let said: Vec<(String, i128, i128)> =
        session.all_segments().into_iter().map(|s| (s.text, s.start, s.end)).collect();
    assert_eq!(
        said,
        vec![
            ("un".to_string(), 5_000, 5_500),
            ("deux".to_string(), 301_000, 301_500)
        ]
    );
}

#[test]
fn a_batch_in_which_nothing_was_heard_says_so() {
    let mut session = recording(&[]);
    session.push_audio_at(5, &[1], after(0));
    let batch = session.flush_batch_at(after(300_000)).unwrap();
    assert_eq!(
        session.finish_batch(&batch, &Vec::new()),
        vec!["*[Batch 1 — 12:30→12:35]*\n_(aucune prise de parole détectée)_"]
    );
    assert!(session.all_segments().is_empty());
}

#[test]
fn times_saturate() {
    let mut session = recording(&[]);
    session.push_audio_at(5, &[1], after(1000));
    assert!(session.flush_batch_at(after(2000)).is_some());
    session.push_audio_at(5, &[1], after(3000));
    let batch = session.flush_batch_at(after(4000)).unwrap();
    let extreme = Segment {
        user: "Anne".to_string(),
        start: i128::MAX,
        end: i128::MIN,
        text: "oui".to_string(),
    };
    session.finish_batch(&batch, &vec![extreme]);
    let said = session.all_segments();
    assert_eq!(said[0].start, i128::MAX);
    assert_eq!(said[0].end, i128::MIN + 2000);
}

#[test]
fn audio_and_batches_can_be_timed_by_the_clock() {
    let mut session = RecordingSession::new(
        1,
        "a".to_string(),
        "b".to_string(),
        "c".to_string(),
        60,
        HashMap::new(),
    );
    session.push_audio(5, &[1, 2]);
    let batch = session.flush_batch().unwrap();
    assert_eq!(batch.buffers[&5], vec![1, 2]);
    assert_eq!(batch.start, session.start_time);
    let length = batch.end.millis_since(batch.start);
    assert!(0 <= batch.audio_offsets[&5] && batch.audio_offsets[&5] <= length);
    assert!(session.flush_batch().is_none());
    assert_eq!(session.batch_count(), 2);
}

#[test]
fn a_tick_brings_the_audio_of_each_source() {
    let mut session = recording(&[]);
    let tick = VoiceEvent::VoiceTick(vec![(5, Some(vec![1, 2])), (6, None), (7, Some(vec![3]))]);
    session.act_at(&tick, after(20));
    session.act_at(&tick, after(40));
    let batch = session.flush_batch_at(after(100)).unwrap();
    assert_eq!(batch.buffers.len(), 2);
    assert_eq!(batch.buffers[&5], vec![1, 2, 1, 2]);
    assert_eq!(batch.buffers[&7], vec![3, 3]);
    assert_eq!(batch.audio_offsets[&5], 20);
}

#[test]
fn a_tick_loses_no_sample() {
    let mut session = recording(&[(1000, "Anne"), (2000, "Bob")]);
    let tick = VoiceEvent::VoiceTick(
        (0..20u32)
            .map(|i| (i, if i % 3 == 0 { None } else { Some(vec![i as i16; i as usize]) }))
            .collect(),
    );
    session.act_at(&tick, after(20));
    let batch = session.flush_batch_at(after(100)).unwrap();
    let kept: usize = batch.buffers.values().map(|b| b.len()).sum();
    // 0 + 1 + … + 19, without the multiples of three.
    assert_eq!(kept, 190 - 63);
}

#[test]
fn a_speaking_state_registers_its_source() {
    let mut session = recording(&[(1000, "Anne"), (2000, "Bob")]);
    session.act_at(&VoiceEvent::SpeakingStateUpdate { ssrc: 5, user_id: None }, after(0));
    session.act_at(&VoiceEvent::SpeakingStateUpdate { ssrc: 5, user_id: Some(4000) }, after(0));
    session.act_at(&VoiceEvent::ClientDisconnect(1000), after(0));
    session.act_at(&VoiceEvent::Other, after(0));
    session.act_at(&VoiceEvent::VoiceTick(vec![(5, Some(vec![9]))]), after(0));
    let batch = session.flush_batch_at(after(100)).unwrap();
    assert_eq!(batch.buffers[&4000], vec![9]);
    assert_eq!(batch.user_names[&4000], "User#4000");
    assert_eq!(batch.user_names.len(), 3);
}

#[test]
fn an_event_can_be_timed_by_the_clock() {
    let mut session = recording(&[]);
    session.act(&VoiceEvent::VoiceTick(vec![(5, Some(vec![9]))]));
    let batch = session.flush_batch().unwrap();
    assert_eq!(batch.buffers[&5], vec![9]);
    assert!(batch.audio_offsets[&5] > 0);
}
