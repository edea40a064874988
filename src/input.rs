//! Key events from the host and the actions an input handler asks for.
use crate::events::EventDomain;
use vstd::prelude::*;

verus! {

/// A token for an event that the host has scheduled with a delay.
pub type PendingToken = u32;

/// Marks the host's opaque data that travels with a key event; a
/// `KeyEvent` holds only its handle.
pub enum EventPayload {
    Opaque,
}

/// A key event: modifier mask, the characters typed, and the handle of the
/// host's payload, which must be sent back or freed exactly once.
pub struct KeyEvent {
    pub modifiers: u32,
    pub characters: String,
    pub payload: usize,
}

/// The input modes of the modal handler.
#[derive(PartialEq, Eq, Structural, Clone, Copy, Debug)]
pub enum Mode {
    Insert,
    Command,
    Visual,
}

/// What an input handler asks the host, or the view, to do, in order.
#[derive(Clone, Debug)]
pub enum Action {
    /// Hand the key event on to the host's input method.
    SendEvent,
    /// Release the key event's payload.
    FreeEvent,
    /// Have the host fire the key event back after `delay` milliseconds; the
    /// host's token is then passed to the handler.
    ScheduleEvent { delay: u32 },
    /// Cancel a scheduled event.
    CancelTimer(PendingToken),
    /// Tell the host that the mode changed.
    ModeChange(Mode),
    /// Tell the host what has been typed of a pending command.
    ParseState(String),
    /// Run an event on the view, `repeat` times.
    Core(EventDomain, usize),
}

} // verus!
