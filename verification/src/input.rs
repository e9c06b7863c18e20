//! Pure mapping from a keypress to one of the table actions. Only "key
//! pressed" events count; key releases and repeats are ignored. The movement
//! and quit bindings are the same for every list; only the toggle key is
//! configuration, chosen per list kind.

use vstd::prelude::*;

verus! {

/// The keys the tool reacts to, as plain values. The surrounding program
/// translates its terminal events into these.
#[derive(Clone, Copy, PartialEq, Eq, Structural, Debug)]
pub enum Key {
    Char(char),
    Down,
    Up,
    Esc,
    Other,
}

/// What a keypress asks the session to do.
#[derive(Clone, Copy, PartialEq, Eq, Structural, Debug)]
pub enum Action {
    MoveDown,
    MoveUp,
    Quit,
    ToggleRow,
    Ignore,
}

/// The action a key event maps to: 'q'/Esc quit, 'j'/Down move down,
/// 'k'/Up move up, the list's toggle key toggles the current row, and
/// everything else - including any event that is not a press - is ignored.
pub open spec fn spec_dispatch(key: Key, pressed: bool, toggle_key: char) -> Action {
    if !pressed {
        Action::Ignore
    } else {
        match key {
            Key::Char(c) => if c == 'q' {
                Action::Quit
            } else if c == 'j' {
                Action::MoveDown
            } else if c == 'k' {
                Action::MoveUp
            } else if c == toggle_key {
                Action::ToggleRow
            } else {
                Action::Ignore
            },
            Key::Down => Action::MoveDown,
            Key::Up => Action::MoveUp,
            Key::Esc => Action::Quit,
            Key::Other => Action::Ignore,
        }
    }
}

/// Map one key event to an action.
pub fn dispatch(key: Key, pressed: bool, toggle_key: char) -> (a: Action)
    ensures
        a == spec_dispatch(key, pressed, toggle_key),
{
    if !pressed {
        return Action::Ignore;
    }
    match key {
        Key::Char(c) => if c == 'q' {
            Action::Quit
        } else if c == 'j' {
            Action::MoveDown
        } else if c == 'k' {
            Action::MoveUp
        } else if c == toggle_key {
            Action::ToggleRow
        } else {
            Action::Ignore
        },
        Key::Down => Action::MoveDown,
        Key::Up => Action::MoveUp,
        Key::Esc => Action::Quit,
        Key::Other => Action::Ignore,
    }
}

} // verus!
