//! What a running router does next.
use vstd::prelude::*;

use crate::config::Duration;

verus! {

/// What happened to a running router.
#[derive(Debug)]
pub enum LoopEvent<E> {
    /// The chunks that were due were processed. The duration says when the next one is: zero, when
    /// there is nothing left to wait for but a new chunk.
    Processed(Result<Duration, E>),
    /// A chunk was pushed.
    Pushed,
    /// The time to sleep is over.
    Elapsed,
    /// The router was stopped.
    Done,
}

/// What a running router is to do.
#[derive(Clone, Copy, Debug, PartialEq, Eq, Structural)]
pub enum LoopAction {
    /// Process the chunks that are due.
    Process,
    /// Wait until a chunk is pushed or the router is stopped.
    WaitForPush,
    /// Sleep for a time that is not zero, or until the router is stopped.
    Sleep(Duration),
    /// Leave the loop.
    Exit,
}

/// What follows on an event.
pub open spec fn reaction<E>(event: LoopEvent<E>) -> LoopAction {
    match event {
        LoopEvent::Processed(Ok(d)) => if d == (Duration { secs: 0, subsec_nanos: 0 }) {
            LoopAction::WaitForPush
        } else {
            LoopAction::Sleep(d)
        },
        LoopEvent::Processed(Err(_)) => LoopAction::Exit,
        LoopEvent::Pushed => LoopAction::Process,
        LoopEvent::Elapsed => LoopAction::Process,
        LoopEvent::Done => LoopAction::Exit,
    }
}

/// Decides what follows on an event.
pub fn next_action<E>(event: LoopEvent<E>) -> (res: LoopAction)
    ensures
        res == reaction(event),
{
    match event {
        LoopEvent::Processed(Ok(d)) => {
            if d == Duration::from_secs(0) {
                LoopAction::WaitForPush
            } else {
                LoopAction::Sleep(d)
            }
        },
        LoopEvent::Processed(Err(_)) => LoopAction::Exit,
        LoopEvent::Pushed => LoopAction::Process,
        LoopEvent::Elapsed => LoopAction::Process,
        LoopEvent::Done => LoopAction::Exit,
    }
}

} // verus!
