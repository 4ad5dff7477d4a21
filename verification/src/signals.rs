//! The signals that a supervisor acts upon.

use vstd::prelude::*;

verus! {

/// A signal of the operating system.
#[allow(non_snake_case)]
#[derive(Clone, Copy, Debug, PartialEq, Eq, Hash, Structural)]
pub enum Signal {
    INT,
    ILL,
    ABRT,
    FPE,
    KILL,
    SEGV,
    TERM,
    HUP,
    QUIT,
    ALRM,
    USR1,
    USR2,
    CHLD,
}

/// What a caught signal asks for.
#[derive(Clone, Copy, Debug, PartialEq, Eq, Hash, Structural)]
pub enum SignalEvent {
    /// The process is to shut down.
    Shutdown,
    /// A child has ended and waits to be collected.
    WaitForChild,
    /// The signal is to be handed on as it came.
    Passthrough(Signal),
}

/// What a signal asks for: an interrupt and a request to end ask for a
/// shutdown, the end of a child asks to be waited for, and any other signal
/// is handed on.
pub open spec fn event_of(signal: Signal) -> SignalEvent {
    match signal {
        Signal::INT | Signal::TERM => SignalEvent::Shutdown,
        Signal::CHLD => SignalEvent::WaitForChild,
        other => SignalEvent::Passthrough(other),
    }
}

/// What the signals that were caught ask for next: the oldest of them
/// decides, and a code that stands for no signal asks for nothing.
pub open spec fn next_event(caught: Seq<Option<Signal>>) -> Option<SignalEvent> {
    if caught.len() == 0 {
        None
    } else {
        match caught[0] {
            Some(signal) => Some(event_of(signal)),
            None => None,
        }
    }
}

/// What a caught signal asks for.
pub fn event_for(signal: Signal) -> (r: SignalEvent)
    ensures
        r == event_of(signal),
{
    match signal {
        Signal::INT | Signal::TERM => SignalEvent::Shutdown,
        Signal::CHLD => SignalEvent::WaitForChild,
        other => SignalEvent::Passthrough(other),
    }
}

/// Takes the oldest of the caught signals and says what it asks for. At
/// most one signal is taken with each call, so that signals come out one
/// by one, in the order in which they were caught.
pub fn check_for_signal(caught: &mut std::collections::VecDeque<Option<Signal>>) -> (r: Option<
    SignalEvent,
>)
    ensures
        r == next_event(old(caught)@),
        final(caught)@ == if old(caught)@.len() == 0 {
            old(caught)@
        } else {
            old(caught)@.subrange(1, old(caught)@.len() as int)
        },
{
    match caught.pop_front() {
        Some(Some(signal)) => Some(event_for(signal)),
        _ => None,
    }
}

} // verus!
