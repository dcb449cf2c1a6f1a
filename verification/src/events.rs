//! The closed alphabet of input events handed to the simulation core, and
//! the classification of raw terminal bytes into it. The capture thread
//! reads raw bytes; classification itself is plain logic and lives here.

use vstd::prelude::*;

verus! {

/// One recognized key press. Anything else is filtered out before it
/// reaches the simulation.
#[derive(Clone, Copy, Debug, PartialEq, Eq, Structural)]
pub enum InputEvent {
    /// Toggle one of the eight input bits; the index is always below 8.
    ToggleBit(u8),
    /// The space key: start a round, or leave the game-over screen.
    StartOrRestart,
    /// The quit key; routed to the shutdown agent, ignored by the core.
    Quit,
}

/// Events carrying a bit index carry one below 8.
pub open spec fn event_wf(event: Option<InputEvent>) -> bool {
    match event {
        Some(InputEvent::ToggleBit(idx)) => idx < 8,
        _ => true,
    }
}

/// Classify one raw terminal byte: the digit keys 1 through 8 toggle bits 0
/// through 7, space starts or restarts, q quits; everything else is dropped.
pub fn classify_key(raw: u8) -> (event: Option<InputEvent>)
    ensures
        event == classified(raw),
        event_wf(event),
{
    if raw >= 49 && raw <= 56 {
        Some(InputEvent::ToggleBit(raw - 49))
    } else if raw == 32 {
        Some(InputEvent::StartOrRestart)
    } else if raw == 113 || raw == 81 {
        Some(InputEvent::Quit)
    } else {
        None
    }
}

/// The classification `classify_key` implements: byte 49 is the digit key 1,
/// byte 32 is space, bytes 113 and 81 are q and Q.
pub open spec fn classified(raw: u8) -> Option<InputEvent> {
    if 49 <= raw <= 56 {
        Some(InputEvent::ToggleBit((raw - 49) as u8))
    } else if raw == 32 {
        Some(InputEvent::StartOrRestart)
    } else if raw == 113 || raw == 81 {
        Some(InputEvent::Quit)
    } else {
        None
    }
}

} // verus!
