//! The keyboard and focus rules every front end shares: which key does what, and which
//! output keeps the pointer focus when one goes away.
//!
//! Keys are matched by the symbol they type, not by scancode, so the bindings follow the
//! layout.

use vstd::prelude::*;

use crate::tools::{tool_at, ToolId};

verus! {

/// The keys the game reacts to; everything else is `Other`.
#[derive(Clone, Copy, Debug, PartialEq, Eq, Structural)]
pub enum Key {
    /// A digit key, `0`–`9`.
    Digit(u8),
    Escape,
    R,
    Tab,
    /// What Shift+Tab types under XKB.
    IsoLeftTab,
    Up,
    Down,
    C,
    M,
    Other,
}

/// What a key press asks the game to do.
#[derive(Clone, Copy, Debug, PartialEq, Eq, Structural)]
pub enum Command {
    Quit,
    SelectTool(ToolId),
    EraseAll,
    /// Step through the tools: `1` forward, `-1` back.
    CycleTool(i32),
    SetPaletteVisible(bool),
    ToggleCredits,
    ToggleMode,
    Nothing,
}

/// The key bindings: Esc quits, `1`–`9` pick a tool, R cleans the desktop, Tab steps
/// through the tools (backwards with Shift), ↑/↓ show and hide the palette, C toggles the
/// credits, M toggles frozen mode.
pub open spec fn command_spec(key: Key, shift: bool) -> Command {
    match key {
        Key::Digit(d) => if 1 <= d <= 9 {
            Command::SelectTool(tool_at(d as int - 1))
        } else {
            Command::Nothing
        },
        Key::Escape => Command::Quit,
        Key::R => Command::EraseAll,
        Key::Tab => Command::CycleTool(if shift { -1i32 } else { 1i32 }),
        Key::IsoLeftTab => Command::CycleTool(-1i32),
        Key::Up => Command::SetPaletteVisible(true),
        Key::Down => Command::SetPaletteVisible(false),
        Key::C => Command::ToggleCredits,
        Key::M => Command::ToggleMode,
        Key::Other => Command::Nothing,
    }
}

/// What pressing `key` does, with Shift held or not.
pub fn command_for_key(key: Key, shift: bool) -> (r: Command)
    ensures
        r == command_spec(key, shift),
{
    match key {
        Key::Digit(d) => match ToolId::from_key_digit(d as i32) {
            Some(t) => Command::SelectTool(t),
            None => Command::Nothing,
        },
        Key::Escape => Command::Quit,
        Key::R => Command::EraseAll,
        Key::Tab => Command::CycleTool(if shift { -1 } else { 1 }),
        Key::IsoLeftTab => Command::CycleTool(-1),
        Key::Up => Command::SetPaletteVisible(true),
        Key::Down => Command::SetPaletteVisible(false),
        Key::C => Command::ToggleCredits,
        Key::M => Command::ToggleMode,
        Key::Other => Command::Nothing,
    }
}

/// The focused output after output `removed` goes away: none if it was the focused one,
/// one place earlier if it stood after the removed one, unchanged otherwise.
pub open spec fn focus_after_removal_spec(focused: Option<usize>, removed: usize) -> Option<usize> {
    match focused {
        Some(f) => if f == removed {
            None
        } else if f > removed {
            Some((f - 1) as usize)
        } else {
            Some(f)
        },
        None => None,
    }
}

/// Where the pointer focus goes when output `removed` is removed from the list.
pub fn focus_after_removal(focused: Option<usize>, removed: usize) -> (r: Option<usize>)
    ensures
        r == focus_after_removal_spec(focused, removed),
{
    match focused {
        Some(f) => if f == removed {
            None
        } else if f > removed {
            Some(f - 1)
        } else {
            Some(f)
        },
        None => None,
    }
}

/// Removing an output never leaves the focus on a position past the shortened list: an
/// output that was still there keeps the focus, at its new place.
pub proof fn lemma_focus_stays_in_range(focused: Option<usize>, removed: usize, len: usize)
    requires
        removed < len,
        focused matches Some(f) ==> f < len,
    ensures
        focus_after_removal_spec(focused, removed) matches Some(g) ==> g < len - 1,
        (focused matches Some(f) && f != removed) ==> focus_after_removal_spec(focused, removed)
            is Some,
{
}

} // verus!
