use std::collections::HashMap;
use warroom_scribe::commands::{
    flush_interval, make_report, merge_member_names, opening_message, start, status, stop,
    target_slack, voice_channel_name, ActiveRecording, GuildInfo, OutputFormat, ReportKind,
    StartAction, StartEvent, StartSettings, StartState, StopAction, StopEvent, StopState,
    StoppedRecording,
};
use warroom_scribe::session::Segment;
use warroom_scribe::time::Timestamp;

fn names(list: &[(u64, &str)]) -> HashMap<u64, String> {
    list.iter().map(|(id, name)| (*id, name.to_string())).collect()
}

fn at(secs: i64) -> Timestamp {
    Timestamp::new(secs, 0).unwrap()
}

fn text(s: &str) -> Option<String> {
    Some(s.to_string())
}

fn said(action: StartAction) -> String {
    match action {
        StartAction::Say(text) => text,
        _ => panic!("nothing is said"),
    }
}

fn failed(action: StartAction) -> String {
    match action {
        StartAction::Fail(text) => text,
        _ => panic!("nothing failed"),
    }
}

#[test]
fn the_slack_channel_is_chosen() {
    assert_eq!(target_slack(text("#a"), text("#b")), "#a");
    assert_eq!(target_slack(None, text("#b")), "#b");
    assert_eq!(target_slack(None, None), "#warroom");
}

#[test]
fn the_interval_is_chosen() {
    assert_eq!(flush_interval(None), 300);
    assert_eq!(flush_interval(text("60")), 60);
    assert_eq!(flush_interval(text("soixante")), 300);
    assert_eq!(flush_interval(text("")), 300);
    assert_eq!(flush_interval(text("-5")), 300);
}

#[test]
fn a_channel_without_a_name_goes_by_its_number() {
    assert_eq!(voice_channel_name(text("incident"), 42), "incident");
    assert_eq!(voice_channel_name(None, 42), "42");
}

#[test]
fn known_names_are_kept() {
    let members = vec![
        (1, "Autre".to_string()),
        (2, "Bob".to_string()),
        (2, "Robert".to_string()),
    ];
    let merged = merge_member_names(names(&[(1, "Anne")]), &members);
    assert_eq!(merged, names(&[(1, "Anne"), (2, "Bob")]));
}

#[test]
fn the_opening_message_gives_the_interval_in_minutes() {
    assert_eq!(
        opening_message("incident", "2024-01-15 12:30 EST", 359),
        ":red_circle: *War room démarrée* — `#incident` — 2024-01-15 12:30 EST\n\
         Les batches de transcription brute seront postés ici toutes les 5 min."
    );
}

#[test]
fn a_second_recording_is_refused() {
    let (state, action) = start(StartState::CheckingSession, StartEvent::SessionActive(true));
    assert!(matches!(state, StartState::Ended));
    assert_eq!(
        said(action),
        "Un enregistrement est déjà en cours. Utilise `/warroom stop` pour le terminer."
    );
}

fn to_members(voice_channel: Option<u64>) -> StartState {
    let (state, action) = start(StartState::CheckingSession, StartEvent::SessionActive(false));
    assert!(matches!(action, StartAction::ReadGuild));
    let guild = GuildInfo { voice_channel, user_names: names(&[(1, "Anne")]) };
    let (state, action) = start(state, StartEvent::Guild(Some(guild)));
    assert!(matches!(action, StartAction::FetchMembers));
    state
}

fn to_joining() -> StartState {
    let members = vec![(1, "Autre".to_string()), (2, "Bob".to_string())];
    let (state, action) = start(to_members(Some(42)), StartEvent::Members(Some(members)));
    assert!(matches!(action, StartAction::ReadSettings(42)));
    let settings = StartSettings {
        slack_channel: None,
        default_slack_channel: text("#ops"),
        flush_interval: text("120"),
        channel_name: text("incident"),
    };
    let (state, action) = start(state, StartEvent::Settings(settings));
    assert_eq!(said(action), ":hourglass: Connexion à **incident** en cours...");
    let (state, action) = start(state, StartEvent::Said);
    assert!(matches!(action, StartAction::Join(42)));
    state
}

#[test]
fn a_recording_is_started() {
    // 2024-01-15 17:30:45 UTC
    let (state, action) = start(to_joining(), StartEvent::Joined(at(1705339845)));
    match action {
        StartAction::OpenThread { channel, text } => {
            assert_eq!(channel, "#ops");
            assert_eq!(
                text,
                ":red_circle: *War room démarrée* — `#incident` — 2024-01-15 12:30 EST\n\
                 Les batches de transcription brute seront postés ici toutes les 2 min."
            );
        }
        _ => panic!("no thread is opened"),
    }
    let (state, action) = start(state, StartEvent::ThreadOpened(Ok("12.34".to_string())));
    match action {
        StartAction::StartSession { thread_ts, setup } => {
            assert_eq!(thread_ts, "12.34");
            assert_eq!(setup.channel_id, 42);
            assert_eq!(setup.channel_name, "incident");
            assert_eq!(setup.slack_channel, "#ops");
            assert_eq!(setup.flush_interval_secs, 120);
            assert_eq!(setup.user_names, names(&[(1, "Anne"), (2, "Bob")]));
        }
        _ => panic!("no recording is started"),
    }
    let (state, action) = start(state, StartEvent::SessionStarted);
    assert_eq!(
        said(action),
        ":red_circle: Enregistrement démarré dans **incident**.\n\
         Thread Slack ouvert dans `#ops`. Utilise `/warroom stop` pour terminer."
    );
    assert!(matches!(state, StartState::Ended));
    let (state, action) = start(state, StartEvent::SessionStarted);
    assert!(matches!(state, StartState::Ended));
    assert!(matches!(action, StartAction::Ignore));
}

#[test]
fn a_guild_that_is_not_cached_is_a_failure() {
    let (state, action) = start(StartState::ReadingGuild, StartEvent::Guild(None));
    assert!(matches!(state, StartState::Ended));
    assert_eq!(failed(action), "Guild non trouvé dans le cache");
}

#[test]
fn the_author_must_be_in_a_voice_channel() {
    for members in [None, Some(vec![(2, "Bob".to_string())])] {
        let (state, action) = start(to_members(None), StartEvent::Members(members));
        assert!(matches!(state, StartState::Ended));
        assert_eq!(
            said(action),
            "Tu dois être dans un channel vocal pour démarrer l'enregistrement."
        );
    }
}

#[test]
fn without_the_members_the_cached_names_are_used() {
    let (state, _) = start(to_members(Some(42)), StartEvent::Members(None));
    match state {
        StartState::ReadingSettings { channel_id, user_names } => {
            assert_eq!(channel_id, 42);
            assert_eq!(user_names, names(&[(1, "Anne")]));
        }
        _ => panic!("the settings are not read"),
    }
}

#[test]
fn a_voice_channel_that_cannot_be_joined_is_reported() {
    let (state, action) = start(to_joining(), StartEvent::JoinFailed("4017".to_string()));
    assert!(matches!(state, StartState::Ended));
    assert_eq!(
        said(action),
        ":x: Impossible de rejoindre le channel vocal : `4017`\n\
         Si tu vois `4017`, Discord requiert le protocole DAVE E2EE."
    );
}

#[test]
fn a_thread_that_cannot_be_opened_is_a_failure() {
    let (state, _) = start(to_joining(), StartEvent::Joined(at(0)));
    let (state, action) = start(state, StartEvent::ThreadOpened(Err("panne".to_string())));
    assert!(matches!(state, StartState::Ended));
    assert_eq!(failed(action), "panne");
}

#[test]
fn a_stray_event_changes_nothing_while_starting() {
    let (state, action) = start(to_joining(), StartEvent::SessionActive(true));
    assert!(matches!(action, StartAction::Ignore));
    match state {
        StartState::Joining(setup) => assert_eq!(setup.slack_channel, "#ops"),
        _ => panic!("the state changed"),
    }
}

fn stopped() -> StoppedRecording {
    StoppedRecording {
        voice_channel_name: "incident".to_string(),
        slack_channel: "#ops".to_string(),
        start_time: at(1705339845),
    }
}

fn segments() -> Vec<Segment> {
    vec![Segment { user: "Anne".to_string(), start: 5000, end: 6000, text: "oui".to_string() }]
}

// What is posted, and what is said at the end.
fn run_stop(asked: Option<OutputFormat>) -> (Vec<(ReportKind, String)>, String) {
    let (state, action) =
        stop(StopState::LookingUp { asked }, StopEvent::Recording(Some(stopped())));
    assert!(matches!(action, StopAction::Leave));
    let (state, action) = stop(state, StopEvent::Left);
    match action {
        StopAction::Say(text) => assert_eq!(
            text,
            ":stop_button: Déconnecté de **incident**. Transcription en cours en arrière-plan..."
        ),
        _ => panic!("nothing is said"),
    }
    let (state, action) = stop(state, StopEvent::Said);
    assert!(matches!(action, StopAction::Close));
    let mut posts: Vec<(ReportKind, String)> = Vec::new();
    let closed = StopEvent::Closed { end_time: at(1705340145), all_segments: segments() };
    let (mut state, mut action) = stop(state, closed);
    loop {
        match action {
            StopAction::Post(report) => posts.push((report.kind, report.chunks.concat())),
            StopAction::Confirm(text) => {
                assert!(matches!(state, StopState::Ended));
                return (posts, text);
            }
            _ => panic!("neither a report nor the end"),
        }
        let (next, what) = stop(state, StopEvent::Posted);
        state = next;
        action = what;
    }
}

#[test]
fn the_summary_is_posted_by_default() {
    let (posts, done) = run_stop(None);
    assert_eq!(posts.len(), 1);
    assert_eq!(posts[0].0, ReportKind::Structured);
    assert!(posts[0].1.starts_with("*Résumé War Room — #incident*\n*Date :* 2024-01-15\n"));
    assert_eq!(
        done,
        ":white_check_mark: Transcription **structured** terminée — postée dans `#ops`."
    );
}

#[test]
fn the_raw_transcript_is_posted_on_demand() {
    let (posts, done) = run_stop(Some(OutputFormat::Raw));
    assert_eq!(posts.len(), 1);
    assert_eq!(posts[0].0, ReportKind::Raw);
    assert!(posts[0].1.starts_with("WAR ROOM TRANSCRIPT — #incident\n"));
    assert_eq!(done, ":white_check_mark: Transcription **raw** terminée — postée dans `#ops`.");
}

#[test]
fn both_are_posted_raw_first() {
    let (posts, done) = run_stop(Some(OutputFormat::Both));
    let kinds: Vec<ReportKind> = posts.iter().map(|p| p.0).collect();
    assert_eq!(kinds, vec![ReportKind::Raw, ReportKind::Structured]);
    assert_eq!(done, ":white_check_mark: Transcription **both** terminée — postée dans `#ops`.");
}

#[test]
fn without_a_recording_there_is_nothing_to_stop() {
    let (state, action) =
        stop(StopState::LookingUp { asked: None }, StopEvent::Recording(None));
    assert!(matches!(state, StopState::Ended));
    match action {
        StopAction::Say(text) => assert_eq!(text, "Aucun enregistrement actif."),
        _ => panic!("nothing is said"),
    }
}

#[test]
fn a_stray_event_changes_nothing_while_stopping() {
    let (state, action) = stop(StopState::LookingUp { asked: None }, StopEvent::Posted);
    assert!(matches!(state, StopState::LookingUp { asked: None }));
    assert!(matches!(action, StopAction::Ignore));
    let (state, action) = stop(StopState::Ended, StopEvent::Posted);
    assert!(matches!(state, StopState::Ended));
    assert!(matches!(action, StopAction::Ignore));
}

#[test]
fn formats_have_names_and_reports() {
    assert_eq!(OutputFormat::Raw.name(), "raw");
    assert_eq!(OutputFormat::Structured.name(), "structured");
    assert_eq!(OutputFormat::Both.name(), "both");
    assert_eq!(OutputFormat::Raw.reports(), vec![ReportKind::Raw]);
    assert_eq!(OutputFormat::Both.reports(), vec![ReportKind::Raw, ReportKind::Structured]);
    assert_eq!(OutputFormat::chosen(None), OutputFormat::Structured);
    assert_eq!(OutputFormat::chosen(Some(OutputFormat::Raw)), OutputFormat::Raw);
}

#[test]
fn a_report_is_laid_out_for_its_kind() {
    let report = make_report(
        ReportKind::Structured,
        &segments(),
        "incident",
        at(1705339845),
        at(1705340145),
    );
    assert_eq!(report.kind, ReportKind::Structured);
    assert_eq!(report.chunks.len(), 1);
    assert!(report.chunks[0].ends_with("\n`00:05` *Anne*: oui"));
}

#[test]
fn the_status_is_told() {
    assert_eq!(status(None), "Aucun enregistrement actif.");
    let active = |batch_count| ActiveRecording {
        voice_channel_name: "incident".to_string(),
        duration: "62m 5s".to_string(),
        batch_count,
    };
    assert_eq!(
        status(Some(active(Some(12)))),
        ":red_circle: Enregistrement actif dans **incident** depuis **62m 5s** \
         (12 batch(s) traité(s))."
    );
    assert_eq!(
        status(Some(active(None))),
        ":red_circle: Enregistrement actif dans **incident** depuis **62m 5s** \
         (0 batch(s) traité(s))."
    );
}
