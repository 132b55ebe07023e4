use warroom_scribe::flush_loop::{FlushAction, FlushEvent, FlushLoop};

#[test]
fn a_batch_is_closed_at_each_interval() {
    let mut state = FlushLoop::Sleeping;
    for _ in 0..3 {
        assert_eq!(state.next(FlushEvent::IntervalElapsed), FlushAction::Flush);
        assert_eq!(state, FlushLoop::Flushing);
        assert_eq!(
            state.next(FlushEvent::FlushDone { stop_requested: false }),
            FlushAction::Sleep
        );
        assert_eq!(state, FlushLoop::Sleeping);
    }
}

#[test]
fn a_signal_while_waiting_ends_at_once() {
    let mut state = FlushLoop::Sleeping;
    assert_eq!(state.next(FlushEvent::StopSignal), FlushAction::Exit);
    assert_eq!(state, FlushLoop::Ended);
}

#[test]
fn a_batch_that_is_being_closed_is_finished() {
    let mut state = FlushLoop::Sleeping;
    state.next(FlushEvent::IntervalElapsed);
    assert_eq!(state.next(FlushEvent::StopSignal), FlushAction::Continue);
    assert_eq!(state.next(FlushEvent::IntervalElapsed), FlushAction::Continue);
    assert_eq!(state, FlushLoop::Flushing);
    assert_eq!(state.next(FlushEvent::FlushDone { stop_requested: true }), FlushAction::Exit);
    assert_eq!(state, FlushLoop::Ended);
}

#[test]
fn once_ended_it_stays_so() {
    let mut state = FlushLoop::Ended;
    for event in [
        FlushEvent::IntervalElapsed,
        FlushEvent::StopSignal,
        FlushEvent::FlushDone { stop_requested: false },
        FlushEvent::FlushDone { stop_requested: true },
    ] {
        assert_eq!(state.next(event), FlushAction::Exit);
        assert_eq!(state, FlushLoop::Ended);
    }
}

#[test]
fn a_stray_report_while_waiting_changes_nothing() {
    let mut state = FlushLoop::Sleeping;
    assert_eq!(state.next(FlushEvent::FlushDone { stop_requested: true }), FlushAction::Sleep);
    assert_eq!(state, FlushLoop::Sleeping);
}
