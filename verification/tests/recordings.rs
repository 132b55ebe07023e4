use warroom_scribe::commands::{status, stop, StopAction, StopEvent, StopState, StoppedRecording};
use warroom_scribe::recordings::Recordings;
use warroom_scribe::time::Timestamp;

fn stopped() -> StoppedRecording {
    StoppedRecording {
        voice_channel_name: "incident".to_string(),
        slack_channel: "#ops".to_string(),
        start_time: Timestamp::new(1705339845, 0).unwrap(),
    }
}

#[test]
fn a_recording_is_found_until_it_is_taken_out() {
    let mut recordings: Recordings<&str> = Recordings::new();
    assert!(!recordings.contains(1));
    assert_eq!(recordings.get(1), None);
    recordings.insert(1, "a");
    recordings.insert(2, "b");
    assert!(recordings.contains(1));
    assert_eq!(recordings.get(1), Some(&"a"));
    assert_eq!(recordings.remove(1), Some("a"));
    assert_eq!(recordings.remove(1), None);
    assert!(!recordings.contains(1));
    assert_eq!(recordings.get(2), Some(&"b"));
    recordings.insert(2, "c");
    assert_eq!(recordings.remove(2), Some("c"));
}

#[test]
fn a_second_stop_finds_nothing() {
    let mut recordings: Recordings<u8> = Recordings::new();
    recordings.insert(1, 0);
    let found = recordings.remove(1).map(|_| stopped());
    let (_, action) = stop(StopState::LookingUp { asked: None }, StopEvent::Recording(found));
    assert!(matches!(action, StopAction::Leave));
    // Whatever comes of it, the next stop is told that nothing goes on.
    let found = recordings.remove(1).map(|_| stopped());
    let (state, action) = stop(StopState::LookingUp { asked: None }, StopEvent::Recording(found));
    assert!(matches!(state, StopState::Ended));
    match action {
        StopAction::Say(text) => assert_eq!(text, "Aucun enregistrement actif."),
        _ => panic!("nothing is said"),
    }
    assert!(recordings.get(1).is_none());
    assert_eq!(status(None), "Aucun enregistrement actif.");
}
