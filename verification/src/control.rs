//! Decisions of the main loop: what a key press does, how long to wait for input, and
//! when the figures are due for an update.
use vstd::prelude::*;

verus! {

/// Interval between two updates of the figures, in milliseconds ("update every second").
pub const TICK_RATE_MILLIS: u64 = 1000;

/// A key press, as far as the main loop tells keys apart.
#[derive(Debug, Clone, Copy, PartialEq, Eq, Structural)]
pub enum KeyInput {
    /// A character key
    Char(char),
    /// The escape key
    Esc,
    /// Any other key
    Other,
}

/// What the main loop does in answer to a key press.
#[derive(Debug, Clone, Copy, PartialEq, Eq, Structural)]
pub enum KeyAction {
    /// Leave the application
    Quit,
    /// Ask for an immediate refresh
    RefreshNow,
    /// Nothing
    Ignore,
}

/// 'q' and Esc quit, 'r' asks for a refresh, every other key is ignored.
pub open spec fn action_for(key: KeyInput) -> KeyAction {
    match key {
        KeyInput::Char(c) => if c == 'q' {
            KeyAction::Quit
        } else if c == 'r' {
            KeyAction::RefreshNow
        } else {
            KeyAction::Ignore
        },
        KeyInput::Esc => KeyAction::Quit,
        KeyInput::Other => KeyAction::Ignore,
    }
}

/// The action the main loop takes for `key`.
pub fn key_action(key: KeyInput) -> (action: KeyAction)
    ensures
        action == action_for(key),
{
    match key {
        KeyInput::Char(c) => if c == 'q' {
            KeyAction::Quit
        } else if c == 'r' {
            KeyAction::RefreshNow
        } else {
            KeyAction::Ignore
        },
        KeyInput::Esc => KeyAction::Quit,
        KeyInput::Other => KeyAction::Ignore,
    }
}

/// How long to wait for input before the next tick: what is left of `tick_rate` after
/// `elapsed`, or nothing once it has passed (all in nanoseconds).
pub fn poll_timeout_nanos(tick_rate: u128, elapsed: u128) -> (timeout: u128)
    ensures
        timeout == if elapsed <= tick_rate {
            tick_rate - elapsed
        } else {
            0
        },
        timeout <= tick_rate,
{
    if elapsed <= tick_rate {
        tick_rate - elapsed
    } else {
        0
    }
}

/// The figures are due for an update once `elapsed` reaches `tick_rate`.
pub fn tick_due(elapsed: u128, tick_rate: u128) -> (due: bool)
    ensures
        due == (elapsed >= tick_rate),
{
    elapsed >= tick_rate
}

} // verus!
