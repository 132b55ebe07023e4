//! When batches are closed while a recording goes on.
use vstd::prelude::*;

verus! {

/// Where the periodic closing of batches stands.
#[derive(Clone, Copy, PartialEq, Eq, Structural, Debug)]
pub enum FlushLoop {
    /// Waiting for the interval to pass.
    Sleeping,
    /// A batch is being closed and transcribed.
    Flushing,
    /// Stopped.
    Ended,
}

/// What happens to it.
#[derive(Clone, Copy, PartialEq, Eq, Structural, Debug)]
pub enum FlushEvent {
    /// The interval passed.
    IntervalElapsed,
    /// The recording is to stop.
    StopSignal,
    /// The batch is done; `stop_requested` tells whether the recording was told to
    /// stop meanwhile.
    FlushDone { stop_requested: bool },
}

/// What is to be done next.
#[derive(Clone, Copy, PartialEq, Eq, Structural, Debug)]
pub enum FlushAction {
    /// Wait for the interval to pass or for the signal to stop.
    Sleep,
    /// Close the batch and transcribe it.
    Flush,
    /// Go on with the batch that is being closed.
    Continue,
    /// Leave.
    Exit,
}

impl FlushLoop {
    /// The next state and what to do in it.
    pub open spec fn after(self, event: FlushEvent) -> (FlushLoop, FlushAction) {
        match (self, event) {
            (FlushLoop::Sleeping, FlushEvent::IntervalElapsed) => (
                FlushLoop::Flushing,
                FlushAction::Flush,
            ),
            (FlushLoop::Sleeping, FlushEvent::StopSignal) => (FlushLoop::Ended, FlushAction::Exit),
            (FlushLoop::Sleeping, FlushEvent::FlushDone { .. }) => (
                FlushLoop::Sleeping,
                FlushAction::Sleep,
            ),
            (FlushLoop::Flushing, FlushEvent::FlushDone { stop_requested }) => if stop_requested {
                (FlushLoop::Ended, FlushAction::Exit)
            } else {
                (FlushLoop::Sleeping, FlushAction::Sleep)
            },
            (FlushLoop::Flushing, _) => (FlushLoop::Flushing, FlushAction::Continue),
            (FlushLoop::Ended, _) => (FlushLoop::Ended, FlushAction::Exit),
        }
    }

    /// What to do after that event.
    pub fn next(&mut self, event: FlushEvent) -> (r: FlushAction)
        ensures
            (*final(self), r) == old(self).after(event),
    {
        match *self {
            FlushLoop::Sleeping => match event {
                FlushEvent::IntervalElapsed => {
                    *self = FlushLoop::Flushing;
                    FlushAction::Flush
                },
                FlushEvent::StopSignal => {
                    *self = FlushLoop::Ended;
                    FlushAction::Exit
                },
                FlushEvent::FlushDone { stop_requested: _ } => FlushAction::Sleep,
            },
            FlushLoop::Flushing => match event {
                FlushEvent::FlushDone { stop_requested } => {
                    if stop_requested {
                        *self = FlushLoop::Ended;
                        FlushAction::Exit
                    } else {
                        *self = FlushLoop::Sleeping;
                        FlushAction::Sleep
                    }
                },
                _ => FlushAction::Continue,
            },
            FlushLoop::Ended => FlushAction::Exit,
        }
    }

    /// The state after several events.
    pub open spec fn after_all(self, events: Seq<FlushEvent>) -> FlushLoop
        decreases events.len(),
    {
        if events.len() == 0 {
            self
        } else {
            self.after_all(events.drop_last()).after(events.last()).0
        }
    }
}

/// Once stopped, it never closes a batch again, whatever happens.
pub proof fn law_stopped_for_good(events: Seq<FlushEvent>, event: FlushEvent)
    ensures
        FlushLoop::Ended.after_all(events) == FlushLoop::Ended,
        FlushLoop::Ended.after_all(events).after(event).1 == FlushAction::Exit,
    decreases events.len(),
{
    if events.len() > 0 {
        law_stopped_for_good(events.drop_last(), event);
    }
}

/// The loop is left by a signal to stop while it waits, and after a batch during
/// which the signal came; never while a batch is being closed.
pub proof fn law_left_between_batches(state: FlushLoop, event: FlushEvent)
    ensures
        state.after(event).1 == FlushAction::Exit <==> {
            ||| state == FlushLoop::Ended
            ||| state == FlushLoop::Sleeping && event == FlushEvent::StopSignal
            ||| state == FlushLoop::Flushing && event == (FlushEvent::FlushDone {
                stop_requested: true,
            })
        },
        state.after(event).1 == FlushAction::Exit <==> state.after(event).0 == FlushLoop::Ended,
{
}

/// A batch is begun only while the loop waits, when the interval has passed.
pub proof fn law_flush_only_on_interval(state: FlushLoop, event: FlushEvent)
    ensures
        state.after(event).1 == FlushAction::Flush <==> state == FlushLoop::Sleeping && event
            == FlushEvent::IntervalElapsed,
{
}

} // verus!
