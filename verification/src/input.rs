//! The input dispatcher: raw key presses, already reduced to plain values,
//! mapped to the small set of semantic quiz actions.

use vstd::prelude::*;
use crate::session::FocusDirection;

verus! {

/// A keyboard event in plain form, decoupled from any terminal backend.
#[derive(Clone, Copy, Debug, PartialEq, Eq, Structural)]
pub enum Key {
    Char(char),
    CtrlC,
    Enter,
    Up,
    Down,
    PageUp,
    PageDown,
    Resize,
    Other,
}

/// A semantic action of the quiz session.
#[derive(Clone, Copy, Debug, PartialEq, Eq, Structural)]
pub enum UserInput {
    MoveFocus(FocusDirection),
    ToggleSelection,
    Submit,
    Quit,
    /// A 1-based display index chosen directly by letter.
    SelectByIndex(usize),
    Resize,
    Unknown,
}

/// The action a printable character stands for: quit, toggle, focus
/// movement, or a 1-based option index by case-insensitive alphabetic
/// offset. The movement letters are claimed before the generic letter rule,
/// as the key reader matches them first.
pub open spec fn char_meaning(c: char) -> UserInput {
    if c == 'q' || c == 'Q' {
        UserInput::Quit
    } else if c == ' ' {
        UserInput::ToggleSelection
    } else if c == 'j' || c == 'J' {
        UserInput::MoveFocus(FocusDirection::Down)
    } else if c == 'k' || c == 'K' {
        UserInput::MoveFocus(FocusDirection::Up)
    } else if 'a' <= c && c <= 'z' {
        UserInput::SelectByIndex((c as u32 - 'a' as u32 + 1) as usize)
    } else if 'A' <= c && c <= 'Z' {
        UserInput::SelectByIndex((c as u32 - 'A' as u32 + 1) as usize)
    } else {
        UserInput::Unknown
    }
}

/// The action each key stands for.
pub open spec fn key_meaning(key: Key) -> UserInput {
    match key {
        Key::Char(c) => char_meaning(c),
        Key::CtrlC => UserInput::Quit,
        Key::Enter => UserInput::Submit,
        Key::Up => UserInput::MoveFocus(FocusDirection::Up),
        Key::Down => UserInput::MoveFocus(FocusDirection::Down),
        Key::PageUp => UserInput::MoveFocus(FocusDirection::Up),
        Key::PageDown => UserInput::MoveFocus(FocusDirection::Down),
        Key::Resize => UserInput::Resize,
        Key::Other => UserInput::Unknown,
    }
}

/// Map one key press to its semantic action. Unknown keys map to
/// `Unknown`, which the session treats as a no-op.
pub fn map_key(key: Key) -> (r: UserInput)
    ensures
        r == key_meaning(key),
{
    match key {
        Key::Char(c) => {
            if c == 'q' || c == 'Q' {
                UserInput::Quit
            } else if c == ' ' {
                UserInput::ToggleSelection
            } else if c == 'j' || c == 'J' {
                UserInput::MoveFocus(FocusDirection::Down)
            } else if c == 'k' || c == 'K' {
                UserInput::MoveFocus(FocusDirection::Up)
            } else if 'a' <= c && c <= 'z' {
                UserInput::SelectByIndex((c as u32 - 'a' as u32 + 1) as usize)
            } else if 'A' <= c && c <= 'Z' {
                UserInput::SelectByIndex((c as u32 - 'A' as u32 + 1) as usize)
            } else {
                UserInput::Unknown
            }
        },
        Key::CtrlC => UserInput::Quit,
        Key::Enter => UserInput::Submit,
        Key::Up => UserInput::MoveFocus(FocusDirection::Up),
        Key::Down => UserInput::MoveFocus(FocusDirection::Down),
        Key::PageUp => UserInput::MoveFocus(FocusDirection::Up),
        Key::PageDown => UserInput::MoveFocus(FocusDirection::Down),
        Key::Resize => UserInput::Resize,
        Key::Other => UserInput::Unknown,
    }
}

} // verus!
