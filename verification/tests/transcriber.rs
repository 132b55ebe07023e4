use std::collections::HashMap;
use warroom_scribe::session::Segment;
use warroom_scribe::transcriber::{
    fmt_placeholder_name, is_hallucination, is_hallucination_given, is_hallucination_lower,
    keep_segment, merge_segments, pcm_to_whisper, prepare_audio, transcription_jobs,
    user_segments, MonoSample, RawSegment, MIN_SAMPLES_16K,
};

fn raw(text: &str, t0: i64, t1: i64) -> RawSegment {
    RawSegment { text: Some(text.to_string()), t0: Some(t0), t1: Some(t1) }
}

fn segment(user: &str, start: i128, text: &str) -> Segment {
    Segment { user: user.to_string(), start, end: start + 1000, text: text.to_string() }
}

// The conversion in floating point: normalise, mix both channels, average three frames.
fn whisper_samples(samples: &[i16]) -> Vec<f32> {
    let mono: Vec<f32> = samples
        .chunks(2)
        .map(|pair| {
            let left = pair[0] as f32 / 32768.0;
            let right = pair.get(1).copied().unwrap_or(0) as f32 / 32768.0;
            (left + right) * 0.5
        })
        .collect();
    mono.chunks(3).map(|chunk| chunk.iter().sum::<f32>() / chunk.len() as f32).collect()
}

#[test]
fn three_frames_make_one_mono_sample() {
    assert_eq!(
        pcm_to_whisper(&[1, 2, 3, 4, 5, 6, 10, 20]),
        vec![MonoSample { sum: 21, frames: 3 }, MonoSample { sum: 30, frames: 1 }]
    );
    assert_eq!(
        pcm_to_whisper(&[100, -50, 7]),
        vec![MonoSample { sum: 57, frames: 2 }]
    );
    assert!(pcm_to_whisper(&[]).is_empty());
}

#[test]
fn mono_samples_are_those_of_floating_point() {
    let mut state: u32 = 12345;
    for n in [0usize, 1, 2, 3, 5, 6, 7, 11, 12, 13, 601, 6000] {
        let mut samples: Vec<i16> = Vec::new();
        for i in 0..n {
            state = state.wrapping_mul(1664525).wrapping_add(1013904223);
            samples.push(match i % 7 {
                0 => i16::MIN,
                1 => i16::MAX,
                _ => (state >> 16) as i16,
            });
        }
        let ours: Vec<f32> = pcm_to_whisper(&samples)
            .iter()
            .map(|s| s.sum as f32 / 65536.0 / s.frames as f32)
            .collect();
        assert_eq!(ours, whisper_samples(&samples));
    }
}

#[test]
fn audio_of_less_than_half_a_second_is_not_transcribed() {
    let six = 6 * MIN_SAMPLES_16K;
    assert_eq!(prepare_audio(&vec![0i16; six]).unwrap().len(), 8000);
    assert!(prepare_audio(&vec![0i16; six - 6]).is_none());
    assert_eq!(prepare_audio(&vec![0i16; six - 5]).unwrap().len(), 8000);
    assert!(prepare_audio(&[]).is_none());
}

#[test]
fn known_phrases_are_made_up() {
    for text in [
        "Sous-titrage Société Radio-Canada",
        "  sous-titres réalisés par la communauté d'Amara.org ",
        "MERCI D'AVOIR REGARDÉ cette vidéo !",
        "Abonnez-vous à la chaîne",
        "n'oubliez pas de vous abonner",
        "Transcribed by https://otter.ai",
        "Subtitles by the community",
        "voir www.zeoranger.co.uk",
    ] {
        assert!(is_hallucination(text), "{}", text);
    }
    for text in ["", "bonjour", "merci d'avoir regarde", "sous-titres", "il faut redéployer"] {
        assert!(!is_hallucination(text), "{}", text);
    }
}

#[test]
fn case_matters_only_before_lowering() {
    assert!(is_hallucination("TRANSCRIBED BY"));
    assert!(!is_hallucination_lower("TRANSCRIBED BY"));
    assert!(is_hallucination_lower("transcribed by"));
    assert!(is_hallucination("SOUS-TITRES RÉALISÉS PAR"));
}

#[test]
fn repetitions_are_made_up() {
    // Two words of eleven are less than a fifth; of ten they are not.
    assert!(is_hallucination("non oui oui oui oui oui oui oui oui oui oui"));
    assert!(!is_hallucination("non oui oui oui oui oui oui oui oui oui"));
    assert!(is_hallucination("oui oui oui oui oui oui oui oui oui oui"));
    assert!(!is_hallucination("oui oui oui oui oui oui oui oui oui"));
    assert!(is_hallucination("Oui OUI oui oui oui oui oui oui oui oui"));
    assert!(!is_hallucination("1 2 3 4 5 6 7 8 9 10 11 12"));
}

#[test]
fn white_space_around_a_text_does_not_matter() {
    for text in ["transcribed by", "bonjour", "oui oui oui oui oui oui oui oui oui oui"] {
        assert_eq!(is_hallucination(&format!(" \n{}\t ", text)), is_hallucination(text));
    }
}

#[test]
fn a_known_phrase_suffices_anywhere() {
    for phrase in PHRASES {
        for (before, after) in [("", ""), ("Alors ", " !"), (" \n", "\t"), ("x", "y"), ("É", "Σ")] {
            let text = format!("{}{}{}", before, phrase, after);
            assert!(is_hallucination(&text), "{}", text);
            assert!(is_hallucination(&text.to_ascii_uppercase()), "{}", text);
            assert!(is_hallucination_lower(&text), "{}", text);
        }
    }
}

#[test]
fn case_does_not_matter() {
    for text in ["Bonjour à tous", "TranScribed BY me", "Oui oui oui oui oui oui oui oui oui OUI"] {
        let shouted = format!("\u{3000} {} \n", text.to_ascii_uppercase());
        assert_eq!(is_hallucination(&shouted), is_hallucination(text));
    }
}

const PHRASES: [&str; 8] = [
    "sous-titrage société radio-canada",
    "sous-titres réalisés par",
    "merci d'avoir regardé",
    "abonnez-vous à la chaîne",
    "n'oubliez pas de vous abonner",
    "transcribed by",
    "subtitles by",
    "www.zeoranger.co.uk",
];

// The rule with the string functions of the standard library.
fn made_up(text: &str) -> bool {
    let lower = text.trim().to_lowercase();
    if PHRASES.iter().any(|phrase| lower.contains(phrase)) {
        return true;
    }
    let words: Vec<&str> = lower.split_whitespace().collect();
    let unique: std::collections::HashSet<&str> = words.iter().copied().collect();
    words.len() >= 10 && unique.len() * 5 < words.len()
}

#[test]
fn the_rule_is_that_of_the_standard_library() {
    let pieces = [
        "", " ", "oui ", "OUI ", "ΑΣ ", "ας ", "ασ ", "Σ", "İ", "ß", "É", "K", "\u{301}", "'",
        "Transcribed BY", "SOUS-TITRES RÉALISÉS PAR", "sous-titres réalisés par", "\u{3000}",
    ];
    for a in pieces {
        for b in pieces {
            for c in pieces {
                let text = format!("{}{}{}", a, b, c);
                assert_eq!(is_hallucination(&text), made_up(&text), "{:?}", text);
                let many = text.repeat(11);
                assert_eq!(is_hallucination(&many), made_up(&many), "{:?}", many);
            }
        }
    }
}

#[test]
fn ascii_capitals_do_not_change_what_a_text_is_in_lower_case() {
    for n in 0..=0x10ffffu32 {
        if let Some(c) = char::from_u32(n) {
            for text in [format!("AΣ{}", c), format!("{}Σ", c), format!("{}Σ{}B", c, c)] {
                assert_eq!(text.to_ascii_lowercase().to_lowercase(), text.to_lowercase());
            }
        }
    }
}

#[test]
fn a_phrase_stays_when_a_text_is_brought_to_lower_case() {
    for phrase in PHRASES {
        for around in ["", "Σ", "ΑΣ", "İ", "\u{301}", "É", "a"] {
            let text = format!("{}{}{}", around, phrase, around);
            assert!(text.to_lowercase().contains(phrase));
            assert!(is_hallucination(&text));
        }
    }
}

#[test]
fn a_phrase_counts_in_the_text_or_in_its_lower_case() {
    assert!(is_hallucination_given("Subtitles BY me", "autre"));
    assert!(is_hallucination_given("autre", "subtitles by me"));
    assert!(!is_hallucination_given("autre", "autre"));
    assert!(!is_hallucination_given("", ""));
}

#[test]
fn ascii_is_lowered_letter_by_letter() {
    for c in 0..128u8 {
        let text = (c as char).to_string();
        let expected = if c.is_ascii_uppercase() { c + 32 } else { c };
        assert_eq!(text.to_lowercase(), (expected as char).to_string());
    }
    let all: String = (0..128u8).map(|c| c as char).collect();
    assert_eq!(all.to_lowercase(), all.to_ascii_lowercase());
}

#[test]
fn a_speaker_keeps_what_was_heard() {
    let heard = Some(vec![
        raw("  Bonjour à tous. ", 0, 250),
        raw("   ", 250, 300),
        raw("Merci d'avoir regardé !", 300, 400),
        RawSegment { text: None, t0: Some(400), t1: Some(500) },
        RawSegment { text: Some("On redémarre.".to_string()), t0: None, t1: None },
        raw("Oui.", 1234, 1299),
    ]);
    let segments = user_segments("Anne", &heard, 1500);
    let shown: Vec<(&str, i128, i128, &str)> = segments
        .iter()
        .map(|s| (s.user.as_str(), s.start, s.end, s.text.as_str()))
        .collect();
    assert_eq!(
        shown,
        vec![
            ("Anne", 1500, 4000, "Bonjour à tous."),
            ("Anne", 1500, 1500, "On redémarre."),
            ("Anne", 13840, 14490, "Oui."),
        ]
    );
    assert!(user_segments("Anne", &None, 0).is_empty());
    assert!(user_segments("Anne", &Some(Vec::new()), 0).is_empty());
}

#[test]
fn extreme_times_do_not_overflow() {
    let heard = Some(vec![raw("oui", i64::MAX, i64::MIN)]);
    let segments = user_segments("Anne", &heard, i64::MAX);
    assert_eq!(segments[0].start, i64::MAX as i128 * 11);
    assert_eq!(segments[0].end, i64::MIN as i128 * 10 + i64::MAX as i128);
}

#[test]
fn a_segment_is_kept_unless_empty_or_made_up() {
    let kept = keep_segment("Bob", "Oui".to_string(), "oui", Some(10), Some(20), 5).unwrap();
    assert_eq!((kept.start, kept.end, kept.text.as_str()), (105, 205, "Oui"));
    assert!(keep_segment("Bob", "".to_string(), "", Some(1), Some(2), 0).is_none());
    assert!(keep_segment("Bob", "X".to_string(), "subtitles by x", None, None, 0).is_none());
}

#[test]
fn each_speaker_with_audio_is_a_job() {
    let mut buffers: HashMap<u64, Vec<i16>> = HashMap::new();
    buffers.insert(7, vec![1, 2]);
    buffers.insert(8, vec![3]);
    let mut names: HashMap<u64, String> = HashMap::new();
    names.insert(7, "Anne".to_string());
    names.insert(9, "Zoé".to_string());
    let mut offsets: HashMap<u64, i64> = HashMap::new();
    offsets.insert(8, 250);
    let mut jobs = transcription_jobs(&buffers, &names, &offsets);
    jobs.sort_by_key(|job| job.user_id);
    assert_eq!(jobs.len(), 2);
    assert_eq!(
        (jobs[0].user_id, jobs[0].username.as_str(), jobs[0].samples.clone(), jobs[0].offset),
        (7, "Anne", vec![1, 2], 0)
    );
    assert_eq!(
        (jobs[1].user_id, jobs[1].username.as_str(), jobs[1].samples.clone(), jobs[1].offset),
        (8, "User#8", vec![3], 250)
    );
    assert_eq!(fmt_placeholder_name(82), "User#82");
}

#[test]
fn segments_are_merged_by_start_and_ties_keep_their_order() {
    let results = vec![
        Some(vec![segment("A", 300, "a1"), segment("A", 100, "a2"), segment("A", 300, "a3")]),
        None,
        Some(vec![segment("B", 100, "b1"), segment("B", 300, "b2"), segment("B", -5, "b3")]),
        Some(Vec::new()),
    ];
    let merged = merge_segments(&results);
    let order: Vec<&str> = merged.iter().map(|s| s.text.as_str()).collect();
    assert_eq!(order, vec!["b3", "a2", "b1", "a1", "a3", "b2"]);
    assert!(merge_segments(&Vec::new()).is_empty());
}
