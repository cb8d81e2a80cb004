//! Which terminal events the key subscriptions pass on.
use vstd::prelude::*;

verus! {

/// What kind of key event the terminal reported.
#[derive(Debug, Clone, Copy, PartialEq, Eq, Structural)]
pub enum KeyKind {
    Press,
    Repeat,
    Release,
}

/// The part of a terminal event that the key subscriptions look at.
#[derive(Debug, Clone, Copy, PartialEq, Eq, Structural)]
pub enum TermEventKind {
    /// A key event of the given kind.
    Key(KeyKind),
    /// Any other event: focus, mouse, paste, resize.
    Other,
}

/// Whether `on_key_event` passes the event on: every key event.
pub fn is_key_event(event: TermEventKind) -> (r: bool)
    ensures
        r == (event is Key),
{
    match event {
        TermEventKind::Key(_) => true,
        TermEventKind::Other => false,
    }
}

/// Whether `on_key_press` passes the event on: a key event that is a press.
pub fn is_key_press(event: TermEventKind) -> (r: bool)
    ensures
        r == (event == TermEventKind::Key(KeyKind::Press)),
{
    match event {
        TermEventKind::Key(KeyKind::Press) => true,
        _ => false,
    }
}

} // verus!
